//! Line tokenization.
//!
//! The kernel aligns the columns of its connection tables with runs of
//! spaces, so a raw line splits into many empty fields. The tokenizer trims
//! the line, splits it on the single space character, and drops the empty
//! fields, leaving the ordered sequence of real tokens.

use vstd::prelude::*;

verus! {

/// ASCII whitespace, as trimmed from the ends of a line.
pub open spec fn is_ws(c: char) -> bool {
    c == ' ' || c == '\t' || c == '\n' || c == '\r' || c == '\u{0b}' || c == '\u{0c}'
}

/// `s` without its leading whitespace.
pub open spec fn trim_start_spec(s: Seq<char>) -> Seq<char>
    decreases s.len(),
{
    if s.len() > 0 && is_ws(s[0]) {
        trim_start_spec(s.skip(1))
    } else {
        s
    }
}

/// `s` without its trailing whitespace.
pub open spec fn trim_end_spec(s: Seq<char>) -> Seq<char>
    decreases s.len(),
{
    if s.len() > 0 && is_ws(s.last()) {
        trim_end_spec(s.drop_last())
    } else {
        s
    }
}

/// `s` without leading and trailing whitespace.
pub open spec fn trim_spec(s: Seq<char>) -> Seq<char> {
    trim_end_spec(trim_start_spec(s))
}

/// `s` split on every occurrence of `sep`, keeping empty fields, as
/// `str::split` does: splitting `"a::b"` on `':'` gives `["a", "", "b"]`,
/// and the empty string gives one empty field.
pub open spec fn split_spec(s: Seq<char>, sep: char) -> Seq<Seq<char>>
    decreases s.len(),
{
    if s.len() == 0 {
        seq![Seq::<char>::empty()]
    } else if s.last() == sep {
        split_spec(s.drop_last(), sep).push(Seq::<char>::empty())
    } else {
        let pre = split_spec(s.drop_last(), sep);
        pre.update(pre.len() - 1, pre.last().push(s.last()))
    }
}

/// Splitting always yields at least one field.
pub proof fn lemma_split_len(s: Seq<char>, sep: char)
    ensures
        split_spec(s, sep).len() >= 1,
    decreases s.len(),
{
    if s.len() > 0 {
        lemma_split_len(s.drop_last(), sep);
    }
}

/// The fields of `parts` that are not empty, in order.
pub open spec fn remove_empty(parts: Seq<Seq<char>>) -> Seq<Seq<char>> {
    parts.filter(|t: Seq<char>| t.len() > 0)
}

/// The tokens of a raw table line: trim, split on spaces, drop the empty
/// fields.
pub open spec fn tokens_spec(s: Seq<char>) -> Seq<Seq<char>> {
    remove_empty(split_spec(trim_spec(s), ' '))
}

/// Appending one field to the split keeps it exactly when it is nonempty.
pub proof fn lemma_remove_empty_push(parts: Seq<Seq<char>>, t: Seq<char>)
    ensures
        remove_empty(parts.push(t)) == if t.len() > 0 {
            remove_empty(parts).push(t)
        } else {
            remove_empty(parts)
        },
{
    broadcast use Seq::lemma_filter_push;

}

/// Trimming the start removes exactly the leading run of whitespace.
proof fn lemma_trim_start_skip(s: Seq<char>, k: int)
    requires
        0 <= k <= s.len(),
        forall|j: int| 0 <= j < k ==> is_ws(#[trigger] s[j]),
        k == s.len() || !is_ws(s[k]),
    ensures
        trim_start_spec(s) =~= s.skip(k),
    decreases k,
{
    if k == 0 {
        assert(s.skip(0) =~= s);
    } else {
        lemma_trim_start_skip(s.skip(1), k - 1);
        assert(s.skip(1).skip(k - 1) =~= s.skip(k));
    }
}

/// Trimming the end removes exactly the trailing run of whitespace.
proof fn lemma_trim_end_take(s: Seq<char>, k: int)
    requires
        0 <= k <= s.len(),
        forall|j: int| k <= j < s.len() ==> is_ws(#[trigger] s[j]),
        k == 0 || !is_ws(s[k - 1]),
    ensures
        trim_end_spec(s) =~= s.take(k),
    decreases s.len() - k,
{
    if k == s.len() {
        assert(s.take(k) =~= s);
    } else {
        lemma_trim_end_take(s.drop_last(), k);
        assert(s.drop_last() =~= s.take(s.len() - 1));
    }
}

/// Whether `c` is whitespace.
fn is_ws_char(c: char) -> (b: bool)
    ensures
        b == is_ws(c),
{
    c == ' ' || c == '\t' || c == '\n' || c == '\r' || c == '\u{0b}' || c == '\u{0c}'
}

/// Whether the character of `s` at position `i` is whitespace.
fn ws_at(s: &str, i: usize) -> (b: bool)
    requires
        i < s@.len(),
    ensures
        b == is_ws(s@[i as int]),
{
    is_ws_char(s.get_char(i))
}

/// Splits `s` on every occurrence of `sep`, keeping empty fields.
pub fn split_char(s: &str, sep: char) -> (r: Vec<String>)
    ensures
        r.deep_view() == split_spec(s@, sep),
{
    let n = s.unicode_len();
    let mut r: Vec<String> = Vec::new();
    let mut cur = String::new();
    let mut i: usize = 0;
    while i < n
        invariant
            i <= n,
            n == s@.len(),
            split_spec(s@.take(i as int), sep) == r.deep_view().push(cur@),
        decreases n - i,
    {
        let c = s.get_char(i);
        proof {
            assert(s@.take(i as int + 1).drop_last() =~= s@.take(i as int));
            assert(s@.take(i as int + 1).last() == s@[i as int]);
        }
        let ghost prev_r = r.deep_view();
        let ghost prev_cur = cur@;
        if c == sep {
            r.push(cur);
            cur = String::new();
            proof {
                assert(r.deep_view() =~= prev_r.push(prev_cur));
                assert(split_spec(s@.take(i as int + 1), sep) =~= r.deep_view().push(cur@));
            }
        } else {
            let piece = s.substring_char(i, i + 1);
            cur.append(piece);
            proof {
                assert(cur@ =~= prev_cur.push(c));
                let pre = split_spec(s@.take(i as int), sep);
                assert(pre.last() == prev_cur);
                assert(split_spec(s@.take(i as int + 1), sep) == pre.update(
                    pre.len() - 1,
                    pre.last().push(c),
                ));
                assert(pre.update(pre.len() - 1, prev_cur.push(c)) =~= r.deep_view().push(cur@));
            }
        }
        i = i + 1;
    }
    proof {
        assert(s@.take(n as int) =~= s@);
    }
    let ghost prev_r = r.deep_view();
    let ghost prev_cur = cur@;
    r.push(cur);
    proof {
        assert(r.deep_view() =~= prev_r.push(prev_cur));
    }
    r
}

/// Splits `s` into its whitespace-separated tokens: trims the ends, splits
/// on the single space character, and removes all empty fields.
pub fn split_and_remove_empty(s: &str) -> (r: Vec<String>)
    ensures
        r.deep_view() == tokens_spec(s@),
{
    let n = s.unicode_len();
    let mut start: usize = 0;
    while start < n && ws_at(s, start)
        invariant
            start <= n,
            n == s@.len(),
            forall|j: int| 0 <= j < start ==> is_ws(#[trigger] s@[j]),
        decreases n - start,
    {
        start = start + 1;
    }
    let mut end: usize = n;
    while end > start && ws_at(s, end - 1)
        invariant
            start <= end <= n,
            n == s@.len(),
            forall|j: int| end <= j < n ==> is_ws(#[trigger] s@[j]),
        decreases end,
    {
        end = end - 1;
    }
    let trimmed = s.substring_char(start, end);
    proof {
        lemma_trim_start_skip(s@, start as int);
        lemma_trim_end_take(s@.skip(start as int), end - start);
        assert(s@.skip(start as int).take(end - start) =~= s@.subrange(start as int, end as int));
        assert(trimmed@ == trim_spec(s@));
    }
    let parts = split_char(trimmed, ' ');
    let mut out: Vec<String> = Vec::new();
    let mut j: usize = 0;
    let n_parts = parts.len();
    while j < n_parts
        invariant
            j <= n_parts,
            n_parts == parts.deep_view().len(),
            parts.deep_view() == split_spec(trim_spec(s@), ' '),
            out.deep_view() == remove_empty(parts.deep_view().take(j as int)),
        decreases n_parts - j,
    {
        proof {
            assert(parts.deep_view().take(j as int + 1) =~= parts.deep_view().take(j as int).push(
                parts.deep_view()[j as int],
            ));
            lemma_remove_empty_push(parts.deep_view().take(j as int), parts.deep_view()[j as int]);
        }
        let ghost prev_out = out.deep_view();
        if !parts[j].as_str().is_empty() {
            let tok = parts[j].clone();
            out.push(tok);
            proof {
                assert(out.deep_view() =~= prev_out.push(parts.deep_view()[j as int]));
            }
        }
        j = j + 1;
    }
    proof {
        assert(parts.deep_view().take(n_parts as int) =~= parts.deep_view());
    }
    out
}

} // verus!
