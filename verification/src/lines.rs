//! The file line protocol: a translatable line is `ID:::Text`, where the
//! separator is the literal three-character sequence `:::` and the ID is
//! trimmed of surrounding whitespace on both read and write. Lines without
//! the separator carry no ID and are never translated.

use vstd::prelude::*;

verus! {

/// Whitespace as the line protocol trims it: blank, tab, carriage return,
/// line feed.
pub open spec fn is_wsp(c: char) -> bool {
    c == ' ' || c == '\t' || c == '\r' || c == '\n'
}

/// `s` with leading whitespace removed.
pub open spec fn trim_front(s: Seq<char>) -> Seq<char>
    decreases s.len(),
{
    if s.len() > 0 && is_wsp(s[0]) {
        trim_front(s.drop_first())
    } else {
        s
    }
}

/// `s` with trailing whitespace removed.
pub open spec fn trim_back(s: Seq<char>) -> Seq<char>
    decreases s.len(),
{
    if s.len() > 0 && is_wsp(s.last()) {
        trim_back(s.drop_last())
    } else {
        s
    }
}

/// `s` with surrounding whitespace removed.
pub open spec fn spec_trim(s: Seq<char>) -> Seq<char> {
    trim_back(trim_front(s))
}

/// The ID separator, `:::`.
pub open spec fn sep_seq() -> Seq<char> {
    seq![':', ':', ':']
}

/// The separator occurs in `s` starting at position `i`.
pub open spec fn sep_at(s: Seq<char>, i: int) -> bool {
    &&& 0 <= i
    &&& i + 3 <= s.len()
    &&& s[i] == ':'
    &&& s[i + 1] == ':'
    &&& s[i + 2] == ':'
}

/// The separator occurs somewhere in `s`.
pub open spec fn has_sep(s: Seq<char>) -> bool {
    exists|i: int| sep_at(s, i)
}

/// Position of the first separator occurrence in `s`; `s.len()` when there
/// is none.
pub open spec fn first_sep(s: Seq<char>) -> int
    decreases s.len(),
{
    if s.len() < 3 {
        s.len() as int
    } else if sep_at(s, 0) {
        0
    } else {
        1 + first_sep(s.drop_first())
    }
}

/// Everything before the first separator: the raw (untrimmed) ID of a line
/// that carries one, or the whole line when there is no separator.
pub open spec fn line_id_raw(s: Seq<char>) -> Seq<char> {
    s.subrange(0, first_sep(s))
}

/// The ID a line carries, trimmed.
pub open spec fn line_id(s: Seq<char>) -> Seq<char> {
    spec_trim(line_id_raw(s))
}

/// Everything after the first separator.
pub open spec fn line_rest(s: Seq<char>) -> Seq<char> {
    s.subrange(first_sep(s) + 3, s.len() as int)
}

pub proof fn lemma_first_sep_props(s: Seq<char>)
    ensures
        0 <= first_sep(s) <= s.len(),
        first_sep(s) < s.len() ==> sep_at(s, first_sep(s)),
        forall|j: int| 0 <= j < first_sep(s) ==> !sep_at(s, j),
        has_sep(s) <==> first_sep(s) < s.len(),
    decreases s.len(),
{
    if s.len() < 3 {
        assert(forall|i: int| sep_at(s, i) ==> i + 3 <= s.len());
    } else if sep_at(s, 0) {
    } else {
        let r = s.drop_first();
        lemma_first_sep_props(r);
        assert(forall|j: int| 0 <= j < r.len() ==> (sep_at(r, j) <==> sep_at(s, j + 1))) by {
            assert forall|j: int| 0 <= j < r.len() implies (sep_at(r, j) <==> sep_at(
                s,
                j + 1,
            )) by {
                if j + 3 <= r.len() {
                    assert(r[j] == s[j + 1]);
                    assert(r[j + 1] == s[j + 2]);
                    assert(r[j + 2] == s[j + 3]);
                }
            }
        }
        assert forall|j: int| 0 <= j < first_sep(s) implies !sep_at(s, j) by {
            if j > 0 {
                assert(!sep_at(r, j - 1));
            }
        }
        if has_sep(s) {
            let i = choose|i: int| sep_at(s, i);
            if i == 0 {
            } else {
                assert(sep_at(r, i - 1));
                assert(first_sep(r) < r.len());
            }
        }
        if first_sep(s) < s.len() {
            assert(sep_at(r, first_sep(r)));
        }
    }
}

/// The first separator position is pinned by any witness of "separator here,
/// none earlier".
pub proof fn lemma_first_sep_is(s: Seq<char>, k: int)
    requires
        sep_at(s, k),
        forall|j: int| 0 <= j < k ==> !sep_at(s, j),
    ensures
        first_sep(s) == k,
{
    lemma_first_sep_props(s);
    if first_sep(s) < k {
        assert(sep_at(s, first_sep(s)));
    }
    if first_sep(s) > k {
        assert(!sep_at(s, k));
    }
}

proof fn lemma_trim_front_at(s: Seq<char>, a: int)
    requires
        0 <= a <= s.len(),
        forall|j: int| 0 <= j < a ==> is_wsp(s[j]),
        a < s.len() ==> !is_wsp(s[a]),
    ensures
        trim_front(s) == s.subrange(a, s.len() as int),
    decreases a,
{
    if a == 0 {
        assert(s.subrange(0, s.len() as int) =~= s);
    } else {
        let r = s.drop_first();
        lemma_trim_front_at(r, a - 1);
        assert(r.subrange(a - 1, r.len() as int) =~= s.subrange(a, s.len() as int));
    }
}

proof fn lemma_trim_back_at(s: Seq<char>, b: int)
    requires
        0 <= b <= s.len(),
        forall|j: int| b <= j < s.len() ==> is_wsp(s[j]),
        b > 0 ==> !is_wsp(s[b - 1]),
    ensures
        trim_back(s) == s.subrange(0, b),
    decreases s.len() - b,
{
    if b == s.len() {
        assert(s.subrange(0, s.len() as int) =~= s);
    } else {
        let r = s.drop_last();
        assert(is_wsp(s.last()));
        lemma_trim_back_at(r, b);
        assert(r.subrange(0, b) =~= s.subrange(0, b));
    }
}

/// Both whitespace bounds at once: the trimmed value of a string whose
/// non-whitespace content lies exactly in `a .. b`.
pub proof fn lemma_trim_between(s: Seq<char>, a: int, b: int)
    requires
        0 <= a <= b <= s.len(),
        forall|j: int| 0 <= j < a ==> is_wsp(s[j]),
        forall|j: int| b <= j < s.len() ==> is_wsp(s[j]),
        a < s.len() ==> !is_wsp(s[a]),
        b > a ==> !is_wsp(s[b - 1]),
        a == s.len() ==> b == a,
    ensures
        spec_trim(s) == s.subrange(a, b),
    decreases s.len(),
{
    lemma_trim_front_at(s, a);
    let t = s.subrange(a, s.len() as int);
    lemma_trim_back_at(t, b - a);
    assert(t.subrange(0, b - a) =~= s.subrange(a, b));
}

/// True exactly when `c` is protocol whitespace.
pub fn wsp(c: char) -> (r: bool)
    ensures
        r == is_wsp(c),
{
    c == ' ' || c == '\t' || c == '\r' || c == '\n'
}

/// Removes surrounding whitespace, as `ID`s are trimmed on read and write.
pub fn trim_str(s: &str) -> (r: String)
    ensures
        r@ == spec_trim(s@),
{
    let n = s.unicode_len();
    let mut a: usize = 0;
    while a < n && wsp(s.get_char(a))
        invariant
            0 <= a <= n,
            n == s@.len(),
            forall|j: int| 0 <= j < a ==> is_wsp(s@[j]),
        decreases n - a,
    {
        a = a + 1;
    }
    if a == n {
        proof {
            lemma_trim_between(s@, a as int, a as int);
        }
        let r = String::new();
        proof {
            assert(r@ =~= s@.subrange(a as int, a as int));
        }
        return r;
    }
    let mut b: usize = n;
    while b > a && wsp(s.get_char(b - 1))
        invariant
            a < b <= n || b == a,
            a < n,
            n == s@.len(),
            !is_wsp(s@[a as int]),
            forall|j: int| b <= j < n ==> is_wsp(s@[j]),
        decreases b,
    {
        proof {
            if b - 1 == a {
                assert(!is_wsp(s@[a as int]));
            }
        }
        b = b - 1;
    }
    proof {
        lemma_trim_between(s@, a as int, b as int);
    }
    s.substring_char(a, b).to_owned()
}

/// Finds the first occurrence of the `:::` separator.
pub fn find_sep(s: &str) -> (r: Option<usize>)
    ensures
        match r {
            Some(i) => has_sep(s@) && i as int == first_sep(s@),
            None => !has_sep(s@),
        },
{
    let n = s.unicode_len();
    if n < 3 {
        proof {
            lemma_first_sep_props(s@);
        }
        return None;
    }
    let mut i: usize = 0;
    while i <= n - 3
        invariant
            0 <= i <= n - 2,
            n == s@.len(),
            n >= 3,
            forall|j: int| 0 <= j < i ==> !sep_at(s@, j),
        decreases n - i,
    {
        if s.get_char(i) == ':' && s.get_char(i + 1) == ':' && s.get_char(i + 2) == ':' {
            proof {
                assert(sep_at(s@, i as int));
                lemma_first_sep_is(s@, i as int);
            }
            return Some(i);
        }
        i = i + 1;
    }
    proof {
        if has_sep(s@) {
            let j = choose|j: int| sep_at(s@, j);
            assert(j + 3 <= n);
            assert(!sep_at(s@, j));
        }
    }
    None
}

/// Splits a line at the first separator into the raw ID part and the rest,
/// mirroring how the protocol reads `ID:::Text`. `None` when the line
/// carries no separator.
pub fn split_line(s: &str) -> (r: Option<(String, String)>)
    ensures
        match r {
            Some(p) => has_sep(s@) && p.0@ == line_id_raw(s@) && p.1@ == line_rest(s@),
            None => !has_sep(s@),
        },
{
    let n = s.unicode_len();
    match find_sep(s) {
        None => None,
        Some(i) => {
            proof {
                lemma_first_sep_props(s@);
            }
            let id_raw = s.substring_char(0, i).to_owned();
            let rest = s.substring_char(i + 3, n).to_owned();
            Some((id_raw, rest))
        },
    }
}

/// Writes a line of the protocol: `id`, the separator, then `text`.
pub fn format_line(id: &str, text: &str) -> (r: String)
    ensures
        r@ == id@ + sep_seq() + text@,
{
    proof {
        reveal_strlit(":::");
    }
    let mut out = String::new();
    out.append(id);
    out.append(":::");
    out.append(text);
    proof {
        assert(":::"@ =~= sep_seq());
        assert(out@ =~= id@ + sep_seq() + text@);
    }
    out
}

/// Re-parsing a written line recovers the ID it was written with: a line
/// written as `id`, separator, `text` parses back to the trimmed `id` —
/// identically for a translated line (nonempty `text`) and for an
/// untranslated placeholder (empty `text`). The ID may not itself contain
/// the separator nor end with a colon: such an ID shifts the first
/// separator of the written line, so the property fails for it.
pub proof fn lemma_written_line_reparses(id: Seq<char>, text: Seq<char>)
    requires
        forall|k: int|
            #![trigger id[k]]
            0 <= k && k + 3 <= id.len() ==> !(id[k] == ':' && id[k + 1] == ':' && id[k + 2]
                == ':'),
        id.len() > 0 ==> id.last() != ':',
    ensures
        has_sep(id + sep_seq() + text),
        first_sep(id + sep_seq() + text) == id.len(),
        line_id(id + sep_seq() + text) == spec_trim(id),
{
    let s = id + sep_seq() + text;
    assert(sep_at(s, id.len() as int));
    assert forall|j: int| 0 <= j < id.len() implies !sep_at(s, j) by {
        if j + 3 <= id.len() {
            assert(s[j] == id[j] && s[j + 1] == id[j + 1] && s[j + 2] == id[j + 2]);
        } else {
            assert(s[id.len() - 1] == id.last());
        }
    }
    lemma_first_sep_is(s, id.len() as int);
    assert(line_id_raw(s) =~= id);
}

} // verus!
