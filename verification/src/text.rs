//! Character classes and small string utilities shared by the extractors
//! and the cache codec.
use vstd::prelude::*;
use vstd::string::StrSliceExecFns;
use vstd::string::StringExecFns;

verus! {

/// ASCII uppercase letters; the camel-case heuristic accepts exactly these
/// as the first character of an action name part.
pub open spec fn spec_is_upper(c: char) -> bool {
    'A' <= c && c <= 'Z'
}

/// Decides whether `c` is an ASCII uppercase letter.
pub fn is_upper_char(c: char) -> (r: bool)
    ensures
        r == spec_is_upper(c),
{
    'A' <= c && c <= 'Z'
}

/// ASCII whitespace, the class that trimming and class-list word
/// boundaries go by.
pub open spec fn spec_is_space(c: char) -> bool {
    c == ' ' || c == '\t' || c == '\n' || c == '\r' || c == '\u{b}' || c == '\u{c}'
}

/// Decides whether `c` is ASCII whitespace.
pub fn is_space_char(c: char) -> (r: bool)
    ensures
        r == spec_is_space(c),
{
    c == ' ' || c == '\t' || c == '\n' || c == '\r' || c == '\u{b}' || c == '\u{c}'
}

/// Relies on `String::push`: appends exactly one character at the end.
#[verifier::external_body]
pub fn push_char(s: &mut String, c: char)
    ensures
        final(s)@ == old(s)@.push(c),
{
    s.push(c);
}

/// Decides whether two string slices hold the same characters.
pub fn str_eq(a: &str, b: &str) -> (r: bool)
    ensures
        r == (a@ == b@),
{
    let an = a.unicode_len();
    let bn = b.unicode_len();
    if an != bn {
        proof {
            assert(a@ != b@) by {
                assert(a@.len() != b@.len());
            }
        }
        return false;
    }
    let mut i: usize = 0;
    while i < an
        invariant
            i <= an,
            an == a@.len(),
            an == b@.len(),
            forall|k: int| 0 <= k < i ==> a@[k] == b@[k],
        decreases an - i,
    {
        if a.get_char(i) != b.get_char(i) {
            return false;
        }
        i += 1;
    }
    proof {
        assert(a@ =~= b@);
    }
    true
}

/// Decides whether `p` is a prefix of `s`.
pub fn str_starts_with(s: &str, p: &str) -> (r: bool)
    ensures
        r == (p@.len() <= s@.len() && p@ == s@.subrange(0, p@.len() as int)),
{
    let sn = s.unicode_len();
    let pn = p.unicode_len();
    if pn > sn {
        return false;
    }
    let mut i: usize = 0;
    while i < pn
        invariant
            i <= pn,
            pn == p@.len(),
            sn == s@.len(),
            pn <= sn,
            forall|k: int| 0 <= k < i ==> p@[k] == s@[k],
        decreases pn - i,
    {
        if p.get_char(i) != s.get_char(i) {
            proof {
                assert(p@ != s@.subrange(0, p@.len() as int)) by {
                    assert(s@.subrange(0, p@.len() as int)[i as int] == s@[i as int]);
                }
            }
            return false;
        }
        i += 1;
    }
    proof {
        assert(p@ =~= s@.subrange(0, p@.len() as int));
    }
    true
}

/// What is left of `s` once leading whitespace goes.
pub open spec fn spec_trim_front(s: Seq<char>) -> Seq<char>
    decreases s.len(),
{
    if s.len() > 0 && spec_is_space(s[0]) {
        spec_trim_front(s.skip(1))
    } else {
        s
    }
}

/// What is left of `s` once trailing whitespace goes.
pub open spec fn spec_trim_back(s: Seq<char>) -> Seq<char>
    decreases s.len(),
{
    if s.len() > 0 && spec_is_space(s[s.len() - 1]) {
        spec_trim_back(s.take(s.len() - 1))
    } else {
        s
    }
}

/// `s` without leading and trailing whitespace.
pub open spec fn spec_trim(s: Seq<char>) -> Seq<char> {
    spec_trim_back(spec_trim_front(s))
}

proof fn lemma_trim_front_skip(s: Seq<char>, b: int)
    requires
        0 <= b <= s.len(),
        forall|k: int| 0 <= k < b ==> spec_is_space(s[k]),
        b == s.len() || !spec_is_space(s[b]),
    ensures
        spec_trim_front(s) == s.skip(b),
    decreases b,
{
    if b == 0 {
        assert(s.skip(0) =~= s);
    } else {
        assert(spec_is_space(s[0]));
        let t = s.skip(1);
        assert(forall|k: int| 0 <= k < b - 1 ==> t[k] == s[k + 1]);
        lemma_trim_front_skip(t, b - 1);
        assert(t.skip(b - 1) =~= s.skip(b));
    }
}

proof fn lemma_trim_back_take(s: Seq<char>, e: int)
    requires
        0 <= e <= s.len(),
        forall|k: int| e <= k < s.len() ==> spec_is_space(s[k]),
        e == 0 || !spec_is_space(s[e - 1]),
    ensures
        spec_trim_back(s) == s.take(e),
    decreases s.len() - e,
{
    if e == s.len() {
        assert(s.take(e) =~= s);
    } else {
        assert(spec_is_space(s[s.len() - 1]));
        let t = s.take(s.len() - 1);
        lemma_trim_back_take(t, e);
        assert(t.take(e) =~= s.take(e));
    }
}

/// Copies `s` without its leading and trailing whitespace.
pub fn trim_str(s: &str) -> (r: String)
    ensures
        r@ == spec_trim(s@),
{
    let n = s.unicode_len();
    let mut b: usize = 0;
    while b < n && is_space_char(s.get_char(b))
        invariant
            b <= n,
            n == s@.len(),
            forall|k: int| 0 <= k < b ==> spec_is_space(s@[k]),
        decreases n - b,
    {
        b += 1;
    }
    let mut e: usize = n;
    while e > b && is_space_char(s.get_char(e - 1))
        invariant
            b <= e <= n,
            n == s@.len(),
            forall|k: int| e <= k < n ==> spec_is_space(s@[k]),
        decreases e,
    {
        e -= 1;
    }
    proof {
        lemma_trim_front_skip(s@, b as int);
        let t = s@.skip(b as int);
        assert(forall|k: int| e - b <= k < t.len() ==> spec_is_space(#[trigger] t[k]));
        lemma_trim_back_take(t, e - b);
        assert(t.take(e - b) =~= s@.subrange(b as int, e as int));
    }
    let piece = s.substring_char(b, e);
    piece.to_owned()
}

/// Whether `w` stands at position `b` in `s` as a whole word, delimited by
/// whitespace or the ends of `s`.
pub open spec fn spec_word_at(s: Seq<char>, w: Seq<char>, b: int) -> bool {
    &&& 0 <= b
    &&& b + w.len() <= s.len()
    &&& s.subrange(b, b + w.len() as int) == w
    &&& (b == 0 || spec_is_space(s[b - 1]))
    &&& (b + w.len() == s.len() || spec_is_space(s[b + w.len()]))
}

/// Whether `s`, read as a whitespace-separated list, holds the word `w`.
pub open spec fn spec_has_word(s: Seq<char>, w: Seq<char>) -> bool {
    exists|b: int| spec_word_at(s, w, b)
}

/// Decides whether `s`, read as a whitespace-separated list, holds the
/// word `w`.
pub fn has_word(s: &str, w: &str) -> (r: bool)
    ensures
        r == spec_has_word(s@, w@),
{
    let n = s.unicode_len();
    let m = w.unicode_len();
    if m > n {
        proof {
            assert(forall|b: int| !spec_word_at(s@, w@, b));
        }
        return false;
    }
    let lim = n - m;
    let mut b: usize = 0;
    loop
        invariant
            m <= n,
            n == s@.len(),
            m == w@.len(),
            lim == n - m,
            b <= lim,
            forall|bb: int| 0 <= bb < b ==> !spec_word_at(s@, w@, bb),
        decreases lim - b,
    {
        let pre_ok = b == 0 || is_space_char(s.get_char(b - 1));
        let post_ok = b + m == n || is_space_char(s.get_char(b + m));
        if pre_ok && post_ok {
            let piece = s.substring_char(b, b + m);
            if str_eq(piece, w) {
                proof {
                    assert(spec_word_at(s@, w@, b as int));
                }
                return true;
            }
        }
        proof {
            assert(!spec_word_at(s@, w@, b as int));
        }
        if b == lim {
            proof {
                assert(forall|bb: int| bb > lim ==> !spec_word_at(s@, w@, bb));
                assert(forall|bb: int| !spec_word_at(s@, w@, bb));
            }
            return false;
        }
        b += 1;
    }
}

/// The texts of `ts`, joined with a single space between neighbours.
pub open spec fn spec_join_space(ts: Seq<Seq<char>>) -> Seq<char>
    decreases ts.len(),
{
    if ts.len() == 0 {
        Seq::empty()
    } else if ts.len() == 1 {
        ts[0]
    } else {
        spec_join_space(ts.drop_last()) + seq![' '] + ts.last()
    }
}

/// Joins the strings of `v` with a single space between neighbours.
pub fn join_space(v: &Vec<String>) -> (r: String)
    ensures
        r@ == spec_join_space(v.deep_view()),
{
    let mut out = String::new();
    let mut i: usize = 0;
    while i < v.len()
        invariant
            i <= v@.len(),
            v.deep_view().len() == v@.len(),
            out@ == spec_join_space(v.deep_view().take(i as int)),
        decreases v@.len() - i,
    {
        proof {
            assert(v.deep_view()[i as int] == v@[i as int]@);
        }
        if i > 0 {
            push_char(&mut out, ' ');
        }
        out.append(v[i].as_str());
        proof {
            let dv = v.deep_view();
            assert(dv.take(i + 1).drop_last() =~= dv.take(i as int));
            assert(dv.take(i + 1).last() == dv[i as int]);
        }
        i += 1;
    }
    proof {
        assert(v.deep_view().take(v@.len() as int) =~= v.deep_view());
    }
    out
}

} // verus!
