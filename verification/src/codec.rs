//! The cache codec: serializes a collection of records to one JSON
//! document and reads the same shape back. A record is three string
//! fields; on the wire the third is keyed `documentURI` on writing, while
//! reading accepts `documentURI` and `document_uri` alike. Strings are
//! escaped the JSON way: quote and backslash with a backslash, control
//! characters as `\u00XX`; the reader also takes the short escapes.
use vstd::prelude::*;
use crate::records::Action;
use crate::records::Service;
use crate::records::SpecAction;
use crate::records::SpecService;
use crate::text::push_char;
use vstd::string::StrSliceExecFns;
use vstd::string::StringExecFns;

verus! {

/// The lower-case hex digit of a value below sixteen.
pub open spec fn hex_digit(v: int) -> char {
    if v < 10 {
        (('0' as int) + v) as char
    } else {
        (('a' as int) + v - 10) as char
    }
}

/// The value of a hex digit; sixteen for every other character.
pub open spec fn hex_val(c: char) -> int {
    if '0' <= c && c <= '9' {
        c as int - '0' as int
    } else if 'a' <= c && c <= 'f' {
        c as int - 'a' as int + 10
    } else if 'A' <= c && c <= 'F' {
        c as int - 'A' as int + 10
    } else {
        16
    }
}

proof fn lemma_hex_digit_val(v: int)
    requires
        0 <= v < 16,
    ensures
        hex_val(hex_digit(v)) == v,
{
}

/// How one character is written inside a JSON string.
pub open spec fn esc_char(c: char) -> Seq<char> {
    if c == '"' {
        seq!['\\', '"']
    } else if c == '\\' {
        seq!['\\', '\\']
    } else if (c as u32) < 0x20 {
        seq!['\\', 'u', '0', '0', hex_digit(((c as u32) as int) / 16), hex_digit(
            ((c as u32) as int) % 16,
        )]
    } else {
        seq![c]
    }
}

/// How a whole string is written inside a JSON string.
pub open spec fn esc(s: Seq<char>) -> Seq<char>
    decreases s.len(),
{
    if s.len() == 0 {
        Seq::empty()
    } else {
        esc_char(s[0]) + esc(s.skip(1))
    }
}

proof fn lemma_esc_concat(a: Seq<char>, b: Seq<char>)
    ensures
        esc(a + b) == esc(a) + esc(b),
    decreases a.len(),
{
    if a.len() == 0 {
        assert(a + b =~= b);
        assert(esc(a) + esc(b) =~= esc(b));
    } else {
        assert((a + b).skip(1) =~= a.skip(1) + b);
        lemma_esc_concat(a.skip(1), b);
        assert(esc(a + b) =~= esc(a) + esc(b));
    }
}

/// Reads a JSON string body up to its closing quote: the decoded value
/// and the remainder past the quote.
pub open spec fn p_str(s: Seq<char>) -> Option<(Seq<char>, Seq<char>)>
    decreases s.len(),
{
    if s.len() == 0 {
        None
    } else if s[0] == '"' {
        Some((Seq::empty(), s.skip(1)))
    } else if s[0] == '\\' {
        if s.len() < 2 {
            None
        } else {
            let e = s[1];
            if e == '"' || e == '\\' || e == '/' {
                p_str_cons(e, p_str(s.skip(2)))
            } else if e == 'n' {
                p_str_cons('\n', p_str(s.skip(2)))
            } else if e == 't' {
                p_str_cons('\t', p_str(s.skip(2)))
            } else if e == 'r' {
                p_str_cons('\r', p_str(s.skip(2)))
            } else if e == 'b' {
                p_str_cons('\u{8}', p_str(s.skip(2)))
            } else if e == 'f' {
                p_str_cons('\u{c}', p_str(s.skip(2)))
            } else if e == 'u' {
                if s.len() < 6 || s[2] != '0' || s[3] != '0' || hex_val(s[4]) >= 16 || hex_val(
                    s[5],
                ) >= 16 {
                    None
                } else {
                    let v = hex_val(s[4]) * 16 + hex_val(s[5]);
                    if v < 0x20 {
                        p_str_cons(v as char, p_str(s.skip(6)))
                    } else {
                        None
                    }
                }
            } else {
                None
            }
        }
    } else if (s[0] as u32) >= 0x20 {
        p_str_cons(s[0], p_str(s.skip(1)))
    } else {
        None
    }
}

/// Puts a decoded character in front of a string-body parse.
pub open spec fn p_str_cons(c: char, r: Option<(Seq<char>, Seq<char>)>) -> Option<
    (Seq<char>, Seq<char>),
> {
    match r {
        None => None,
        Some((v, rest)) => Some((seq![c] + v, rest)),
    }
}

proof fn lemma_p_str_shrinks(s: Seq<char>)
    ensures
        p_str(s) matches Some(vr) ==> vr.1.len() < s.len(),
    decreases s.len(),
{
    if s.len() > 0 && s[0] != '"' {
        if s[0] == '\\' && s.len() >= 2 {
            lemma_p_str_shrinks(s.skip(2));
            if s.len() >= 6 {
                lemma_p_str_shrinks(s.skip(6));
            }
        } else {
            lemma_p_str_shrinks(s.skip(1));
        }
    }
}

proof fn lemma_p_str_esc(v: Seq<char>, rest: Seq<char>)
    requires
        rest.len() > 0,
        rest[0] == '"',
    ensures
        p_str(esc(v) + rest) == Some((v, rest.skip(1))),
    decreases v.len(),
{
    let s = esc(v) + rest;
    if v.len() == 0 {
        assert(s =~= rest);
    } else {
        let c = v[0];
        let vr = v.skip(1);
        lemma_p_str_esc(vr, rest);
        let s2 = esc(vr) + rest;
        assert(esc(v) == esc_char(c) + esc(vr));
        if c == '"' {
            assert(s[0] == '\\' && s[1] == '"');
            assert(s.skip(2) =~= s2);
            assert(seq!['"'] + vr =~= v);
        } else if c == '\\' {
            assert(s[0] == '\\' && s[1] == '\\');
            assert(s.skip(2) =~= s2);
            assert(seq!['\\'] + vr =~= v);
        } else if (c as u32) < 0x20 {
            let cv = (c as u32) as int;
            assert(0 <= cv / 16 && cv / 16 < 2 && 0 <= cv % 16 && cv % 16 < 16 && (cv / 16) * 16
                + cv % 16 == cv) by (nonlinear_arith)
                requires
                    0 <= cv && cv < 0x20;
            let hi = cv / 16;
            let lo = cv % 16;
            assert(s[0] == '\\' && s[1] == 'u' && s[2] == '0' && s[3] == '0' && s[4] == hex_digit(
                hi,
            ) && s[5] == hex_digit(lo));
            lemma_hex_digit_val(hi);
            lemma_hex_digit_val(lo);
            assert(hex_val(s[4]) * 16 + hex_val(s[5]) == cv);
            vstd::utf8::char_u32_cast(c, c as u32);
            assert((cv as char) == c);
            assert(s.skip(6) =~= s2);
            assert(seq![c] + vr =~= v);
        } else {
            assert(s[0] == c);
            assert(s.skip(1) =~= s2);
            assert(seq![c] + vr =~= v);
        }
    }
}

/// Reads the exact literal `lit` off the front of `s`.
pub open spec fn p_lit(s: Seq<char>, lit: Seq<char>) -> Option<Seq<char>> {
    if lit.len() <= s.len() && s.subrange(0, lit.len() as int) == lit {
        Some(s.skip(lit.len() as int))
    } else {
        None
    }
}

proof fn lemma_p_lit(lit: Seq<char>, rest: Seq<char>)
    ensures
        p_lit(lit + rest, lit) == Some(rest),
{
    let s = lit + rest;
    assert(s.subrange(0, lit.len() as int) =~= lit);
    assert(s.skip(lit.len() as int) =~= rest);
}

/// One record on the wire: three string fields.
pub open spec fn ser_obj(f1: Seq<char>, f2: Seq<char>, f3: Seq<char>, key2: Seq<char>) -> Seq<
    char,
> {
    "{\"name\":\""@ + esc(f1) + seq!['"'] + lit_key(key2) + esc(f2) + seq!['"'] + ",\"documentURI\":\""@
        + esc(f3) + seq!['"', '}']
}

/// The middle key of a record, between the first and second field.
pub open spec fn lit_key(key2: Seq<char>) -> Seq<char> {
    seq![',', '"'] + key2 + "\":\""@
}

/// Reads one record off the front of `s`: its three fields and the
/// remainder. The third key may be `documentURI` or `document_uri`.
pub open spec fn p_obj(s: Seq<char>, key2: Seq<char>) -> Option<
    ((Seq<char>, Seq<char>, Seq<char>), Seq<char>),
> {
    match p_lit(s, "{\"name\":\""@) {
        None => None,
        Some(s1) => match p_str(s1) {
            None => None,
            Some((f1, s2)) => match p_lit(s2, lit_key(key2)) {
                None => None,
                Some(s3) => match p_str(s3) {
                    None => None,
                    Some((f2, s4)) => match p_uri_key(s4) {
                        None => None,
                        Some(s5) => match p_str(s5) {
                            None => None,
                            Some((f3, s6)) => match p_lit(s6, seq!['}']) {
                                None => None,
                                Some(s7) => Some(((f1, f2, f3), s7)),
                            },
                        },
                    },
                },
            },
        },
    }
}

/// Reads the third key, under its wire name or its internal name.
pub open spec fn p_uri_key(s: Seq<char>) -> Option<Seq<char>> {
    match p_lit(s, ",\"documentURI\":\""@) {
        Some(r) => Some(r),
        None => p_lit(s, ",\"document_uri\":\""@),
    }
}

proof fn lemma_p_obj_shrinks(s: Seq<char>, key2: Seq<char>)
    ensures
        p_obj(s, key2) matches Some(tr) ==> tr.1.len() < s.len(),
{
    if p_lit(s, "{\"name\":\""@) is Some {
        let s1 = p_lit(s, "{\"name\":\""@)->Some_0;
        lemma_p_str_shrinks(s1);
        if p_str(s1) is Some {
            let s2 = p_str(s1)->Some_0.1;
            if p_lit(s2, lit_key(key2)) is Some {
                let s3 = p_lit(s2, lit_key(key2))->Some_0;
                lemma_p_str_shrinks(s3);
                if p_str(s3) is Some {
                    let s4 = p_str(s3)->Some_0.1;
                    if p_uri_key(s4) is Some {
                        let s5 = p_uri_key(s4)->Some_0;
                        lemma_p_str_shrinks(s5);
                    }
                }
            }
        }
    }
}

#[verifier::rlimit(100)]
proof fn lemma_p_obj_ser(
    f1: Seq<char>,
    f2: Seq<char>,
    f3: Seq<char>,
    key2: Seq<char>,
    rest: Seq<char>,
)
    ensures
        p_obj(ser_obj(f1, f2, f3, key2) + rest, key2) == Some(((f1, f2, f3), rest)),
{
    let s = ser_obj(f1, f2, f3, key2) + rest;
    let t1 = esc(f1) + (seq!['"'] + lit_key(key2) + esc(f2) + seq!['"'] + ",\"documentURI\":\""@
        + esc(f3) + seq!['"', '}'] + rest);
    assert(s =~= "{\"name\":\""@ + t1);
    lemma_p_lit("{\"name\":\""@, t1);
    let q1 = seq!['"'] + (lit_key(key2) + esc(f2) + seq!['"'] + ",\"documentURI\":\""@ + esc(f3)
        + seq!['"', '}'] + rest);
    assert(t1 =~= esc(f1) + q1);
    lemma_p_str_esc(f1, q1);
    let t2 = lit_key(key2) + (esc(f2) + seq!['"'] + ",\"documentURI\":\""@ + esc(f3) + seq![
        '"',
        '}',
    ] + rest);
    assert(q1.skip(1) =~= t2);
    lemma_p_lit(lit_key(key2), esc(f2) + seq!['"'] + ",\"documentURI\":\""@ + esc(f3) + seq![
        '"',
        '}',
    ] + rest);
    let q2 = seq!['"'] + (",\"documentURI\":\""@ + esc(f3) + seq!['"', '}'] + rest);
    assert(esc(f2) + seq!['"'] + ",\"documentURI\":\""@ + esc(f3) + seq!['"', '}'] + rest =~= esc(
        f2,
    ) + q2);
    lemma_p_str_esc(f2, q2);
    let t3 = ",\"documentURI\":\""@ + (esc(f3) + seq!['"', '}'] + rest);
    assert(q2.skip(1) =~= t3);
    lemma_p_lit(",\"documentURI\":\""@, esc(f3) + seq!['"', '}'] + rest);
    let q3 = seq!['"'] + (seq!['}'] + rest);
    assert(esc(f3) + seq!['"', '}'] + rest =~= esc(f3) + q3);
    lemma_p_str_esc(f3, q3);
    assert(q3.skip(1) =~= seq!['}'] + rest);
    lemma_p_lit(seq!['}'], rest);
}

/// The records of a non-empty collection on the wire, comma-separated and
/// closed with the list bracket.
pub open spec fn ser_items(
    ts: Seq<(Seq<char>, Seq<char>, Seq<char>)>,
    key2: Seq<char>,
) -> Seq<char>
    decreases ts.len(),
{
    if ts.len() == 0 {
        Seq::empty()
    } else if ts.len() == 1 {
        ser_obj(ts[0].0, ts[0].1, ts[0].2, key2) + seq![']']
    } else {
        ser_obj(ts[0].0, ts[0].1, ts[0].2, key2) + seq![','] + ser_items(ts.skip(1), key2)
    }
}

/// Reads records until the closing bracket: the records and the remainder
/// past the bracket.
pub open spec fn p_items(s: Seq<char>, key2: Seq<char>) -> Option<
    (Seq<(Seq<char>, Seq<char>, Seq<char>)>, Seq<char>),
>
    decreases s.len(),
    via p_items_dec
{
    match p_obj(s, key2) {
        None => None,
        Some((t, r)) => if r.len() > 0 && r[0] == ',' {
            match p_items(r.skip(1), key2) {
                None => None,
                Some((ts, r2)) => Some((seq![t] + ts, r2)),
            }
        } else if r.len() > 0 && r[0] == ']' {
            Some((seq![t], r.skip(1)))
        } else {
            None
        },
    }
}

#[via_fn]
proof fn p_items_dec(s: Seq<char>, key2: Seq<char>) {
    lemma_p_obj_shrinks(s, key2);
}

#[verifier::rlimit(100)]
proof fn lemma_p_items_ser(ts: Seq<(Seq<char>, Seq<char>, Seq<char>)>, key2: Seq<char>)
    requires
        ts.len() >= 1,
    ensures
        p_items(ser_items(ts, key2), key2) == Some((ts, Seq::<char>::empty())),
    decreases ts.len(),
{
    let t = ts[0];
    if ts.len() == 1 {
        lemma_p_obj_ser(t.0, t.1, t.2, key2, seq![']']);
        assert(seq![']'].skip(1) =~= Seq::<char>::empty());
        assert(seq![t] =~= ts);
    } else {
        lemma_p_items_ser(ts.skip(1), key2);
        let tail = seq![','] + ser_items(ts.skip(1), key2);
        lemma_p_obj_ser(t.0, t.1, t.2, key2, tail);
        assert(ser_items(ts, key2) =~= ser_obj(t.0, t.1, t.2, key2) + tail);
        assert(tail[0] == ',');
        assert(tail.skip(1) =~= ser_items(ts.skip(1), key2));
        assert(seq![t] + ts.skip(1) =~= ts);
    }
}

/// A whole collection on the wire: a JSON array of records.
pub open spec fn ser_triples(
    ts: Seq<(Seq<char>, Seq<char>, Seq<char>)>,
    key2: Seq<char>,
) -> Seq<char> {
    if ts.len() == 0 {
        seq!['[', ']']
    } else {
        seq!['['] + ser_items(ts, key2)
    }
}

/// Reads a whole collection: the document must be exactly one array of
/// records.
pub open spec fn p_triples(s: Seq<char>, key2: Seq<char>) -> Option<
    Seq<(Seq<char>, Seq<char>, Seq<char>)>,
> {
    if s.len() >= 1 && s[0] == '[' {
        let r = s.skip(1);
        if r.len() == 1 && r[0] == ']' {
            Some(Seq::empty())
        } else {
            match p_items(r, key2) {
                None => None,
                Some((ts, rem)) => if rem.len() == 0 {
                    Some(ts)
                } else {
                    None
                },
            }
        }
    } else {
        None
    }
}

/// Law: reading a written collection gives back exactly the collection
/// that was written, for every collection of records.
pub proof fn lemma_triples_round_trip(ts: Seq<(Seq<char>, Seq<char>, Seq<char>)>, key2: Seq<char>)
    ensures
        p_triples(ser_triples(ts, key2), key2) == Some(ts),
{
    let s = ser_triples(ts, key2);
    if ts.len() == 0 {
        assert(s[0] == '[');
        assert(s.skip(1) =~= seq![']']);
    } else {
        assert(s[0] == '[');
        assert(s.skip(1) =~= ser_items(ts, key2));
        lemma_p_items_ser(ts, key2);
        let t = ts[0];
        reveal_strlit("{\"name\":\"");
        assert(ser_obj(t.0, t.1, t.2, key2)[0] == '{');
        assert(ser_items(ts, key2)[0] == '{');
        assert(!(ser_items(ts, key2).len() == 1 && ser_items(ts, key2)[0] == ']'));
    }
}

/// The image of a service on the wire: name, code, address.
pub open spec fn svc_triple(s: SpecService) -> (Seq<char>, Seq<char>, Seq<char>) {
    (s.name, s.code, s.document_uri)
}

/// The image of an action on the wire: name, description, address.
pub open spec fn act_triple(a: SpecAction) -> (Seq<char>, Seq<char>, Seq<char>) {
    (a.name, a.description, a.document_uri)
}

/// A service collection as one JSON document.
pub open spec fn spec_ser_services(ss: Seq<SpecService>) -> Seq<char> {
    ser_triples(ss.map_values(|s: SpecService| svc_triple(s)), "code"@)
}

/// A service record from its wire image.
pub open spec fn triple_service(t: (Seq<char>, Seq<char>, Seq<char>)) -> SpecService {
    SpecService { name: t.0, code: t.1, document_uri: t.2 }
}

/// A whole service collection from its wire images.
pub open spec fn triples_services(ts: Seq<(Seq<char>, Seq<char>, Seq<char>)>) -> Seq<SpecService> {
    ts.map_values(|t: (Seq<char>, Seq<char>, Seq<char>)| triple_service(t))
}

/// The service collection a JSON document holds, when it is well-formed.
pub open spec fn spec_parse_services(s: Seq<char>) -> Option<Seq<SpecService>> {
    match p_triples(s, "code"@) {
        None => None,
        Some(ts) => Some(triples_services(ts)),
    }
}

/// An action collection as one JSON document.
pub open spec fn spec_ser_actions(aa: Seq<SpecAction>) -> Seq<char> {
    ser_triples(aa.map_values(|a: SpecAction| act_triple(a)), "description"@)
}

/// An action record from its wire image.
pub open spec fn triple_action(t: (Seq<char>, Seq<char>, Seq<char>)) -> SpecAction {
    SpecAction { name: t.0, description: t.1, document_uri: t.2 }
}

/// A whole action collection from its wire images.
pub open spec fn triples_actions(ts: Seq<(Seq<char>, Seq<char>, Seq<char>)>) -> Seq<SpecAction> {
    ts.map_values(|t: (Seq<char>, Seq<char>, Seq<char>)| triple_action(t))
}

/// The action collection a JSON document holds, when it is well-formed.
pub open spec fn spec_parse_actions(s: Seq<char>) -> Option<Seq<SpecAction>> {
    match p_triples(s, "description"@) {
        None => None,
        Some(ts) => Some(triples_actions(ts)),
    }
}

/// One record read off the wire, before it is given a record type.
struct Raw {
    f1: String,
    f2: String,
    f3: String,
}

/// The wire image of one raw record.
spec fn raw_triple(x: Raw) -> (Seq<char>, Seq<char>, Seq<char>) {
    (x.f1@, x.f2@, x.f3@)
}

/// The wire images of a sequence of raw records.
spec fn raws_triples(v: Seq<Raw>) -> Seq<(Seq<char>, Seq<char>, Seq<char>)> {
    v.map_values(|x: Raw| raw_triple(x))
}

fn hex_digit_char(v: u32) -> (r: char)
    requires
        v < 16,
    ensures
        r == hex_digit(v as int),
{
    if v == 0 {
        '0'
    } else if v == 1 {
        '1'
    } else if v == 2 {
        '2'
    } else if v == 3 {
        '3'
    } else if v == 4 {
        '4'
    } else if v == 5 {
        '5'
    } else if v == 6 {
        '6'
    } else if v == 7 {
        '7'
    } else if v == 8 {
        '8'
    } else if v == 9 {
        '9'
    } else if v == 10 {
        'a'
    } else if v == 11 {
        'b'
    } else if v == 12 {
        'c'
    } else if v == 13 {
        'd'
    } else if v == 14 {
        'e'
    } else {
        'f'
    }
}

fn hex_val_char(c: char) -> (r: u8)
    ensures
        r as int == hex_val(c),
{
    if c == '0' {
        0
    } else if c == '1' {
        1
    } else if c == '2' {
        2
    } else if c == '3' {
        3
    } else if c == '4' {
        4
    } else if c == '5' {
        5
    } else if c == '6' {
        6
    } else if c == '7' {
        7
    } else if c == '8' {
        8
    } else if c == '9' {
        9
    } else if c == 'a' {
        10
    } else if c == 'b' {
        11
    } else if c == 'c' {
        12
    } else if c == 'd' {
        13
    } else if c == 'e' {
        14
    } else if c == 'f' {
        15
    } else if c == 'A' {
        10
    } else if c == 'B' {
        11
    } else if c == 'C' {
        12
    } else if c == 'D' {
        13
    } else if c == 'E' {
        14
    } else if c == 'F' {
        15
    } else {
        16
    }
}

/// Appends `s`, escaped for a JSON string, to `out`.
fn esc_append(out: &mut String, s: &str)
    ensures
        final(out)@ == old(out)@ + esc(s@),
{
    let n = s.unicode_len();
    let mut i: usize = 0;
    proof {
        assert(old(out)@ + esc(s@.take(0)) =~= old(out)@);
    }
    while i < n
        invariant
            i <= n,
            n == s@.len(),
            out@ == old(out)@ + esc(s@.take(i as int)),
        decreases n - i,
    {
        let c = s.get_char(i);
        if c == '"' {
            push_char(out, '\\');
            push_char(out, '"');
        } else if c == '\\' {
            push_char(out, '\\');
            push_char(out, '\\');
        } else if (c as u32) < 0x20 {
            let cv = c as u32;
            push_char(out, '\\');
            push_char(out, 'u');
            push_char(out, '0');
            push_char(out, '0');
            push_char(out, hex_digit_char(cv / 16));
            push_char(out, hex_digit_char(cv % 16));
        } else {
            push_char(out, c);
        }
        proof {
            lemma_esc_concat(s@.take(i as int), seq![s@[i as int]]);
            assert(s@.take(i + 1) =~= s@.take(i as int) + seq![s@[i as int]]);
            let single = seq![s@[i as int]];
            assert(single.skip(1) =~= Seq::<char>::empty());
            assert(esc(single) == esc_char(c) + esc(single.skip(1)));
            assert(esc(single) =~= esc_char(c));
            assert(out@ =~= old(out)@ + esc(s@.take(i + 1)));
        }
        i += 1;
    }
    proof {
        assert(s@.take(n as int) =~= s@);
    }
}

/// Appends one record to `out` in the wire shape.
fn obj_append(out: &mut String, f1: &str, f2: &str, f3: &str, key2: &str)
    ensures
        final(out)@ == old(out)@ + ser_obj(f1@, f2@, f3@, key2@),
{
    out.append("{\"name\":\"");
    esc_append(out, f1);
    push_char(out, '"');
    push_char(out, ',');
    push_char(out, '"');
    out.append(key2);
    out.append("\":\"");
    esc_append(out, f2);
    push_char(out, '"');
    out.append(",\"documentURI\":\"");
    esc_append(out, f3);
    push_char(out, '"');
    push_char(out, '}');
    proof {
        assert(final(out)@ =~= old(out)@ + ser_obj(f1@, f2@, f3@, key2@));
    }
}

/// Reads the exact literal `lit` at position `pos`.
fn p_lit_at(s: &str, pos: usize, lit: &str) -> (r: Option<usize>)
    requires
        pos <= s@.len(),
    ensures
        match r {
            Some(np) => pos <= np <= s@.len() && p_lit(s@.skip(pos as int), lit@) == Some(
                s@.skip(np as int),
            ),
            None => p_lit(s@.skip(pos as int), lit@) is None,
        },
{
    let n = s.unicode_len();
    let m = lit.unicode_len();
    if m > n - pos {
        return None;
    }
    let piece = s.substring_char(pos, pos + m);
    if crate::text::str_eq(piece, lit) {
        proof {
            assert(s@.skip(pos as int).subrange(0, m as int) =~= s@.subrange(
                pos as int,
                pos + m,
            ));
            assert(s@.skip(pos as int).skip(m as int) =~= s@.skip(pos + m));
        }
        Some(pos + m)
    } else {
        proof {
            assert(s@.skip(pos as int).subrange(0, m as int) =~= s@.subrange(
                pos as int,
                pos + m,
            ));
        }
        None
    }
}

/// Reads a JSON string body at position `pos`, up to its closing quote.
fn p_str_at(s: &str, pos: usize) -> (r: Option<(String, usize)>)
    requires
        pos <= s@.len(),
    ensures
        match r {
            Some(vr) => pos <= vr.1 <= s@.len() && p_str(s@.skip(pos as int)) == Some(
                (vr.0@, s@.skip(vr.1 as int)),
            ),
            None => p_str(s@.skip(pos as int)) is None,
        },
{
    let n = s.unicode_len();
    let mut out = String::new();
    let mut p: usize = pos;
    loop
        invariant
            pos <= p <= n,
            n == s@.len(),
            (match p_str(s@.skip(p as int)) {
                None => p_str(s@.skip(pos as int)) is None,
                Some(vr) => p_str(s@.skip(pos as int)) == Some((out@ + vr.0, vr.1)),
            }),
        decreases n - p,
    {
        if p >= n {
            return None;
        }
        let c = s.get_char(p);
        proof {
            assert(s@.skip(p as int)[0] == c);
        }
        if c == '"' {
            proof {
                assert(s@.skip(p as int).skip(1) =~= s@.skip(p + 1));
                assert(out@ + Seq::<char>::empty() =~= out@);
            }
            return Some((out, p + 1));
        } else if c == '\\' {
            if p + 1 >= n {
                return None;
            }
            let e = s.get_char(p + 1);
            proof {
                assert(s@.skip(p as int)[1] == e);
                assert(s@.skip(p as int).skip(2) =~= s@.skip(p + 2));
            }
            let ghost before = out@;
            if e == '"' || e == '\\' || e == '/' {
                push_char(&mut out, e);
            } else if e == 'n' {
                push_char(&mut out, '\n');
            } else if e == 't' {
                push_char(&mut out, '\t');
            } else if e == 'r' {
                push_char(&mut out, '\r');
            } else if e == 'b' {
                push_char(&mut out, '\u{8}');
            } else if e == 'f' {
                push_char(&mut out, '\u{c}');
            } else if e == 'u' {
                if n - p < 6 {
                    return None;
                }
                let d2 = s.get_char(p + 2);
                let d3 = s.get_char(p + 3);
                proof {
                    assert(s@.skip(p as int)[2] == d2 && s@.skip(p as int)[3] == d3);
                    assert(s@.skip(p as int)[4] == s@[p + 4] && s@.skip(p as int)[5] == s@[p
                        + 5]);
                }
                if d2 != '0' || d3 != '0' {
                    return None;
                }
                let h1 = hex_val_char(s.get_char(p + 4));
                let h2 = hex_val_char(s.get_char(p + 5));
                if h1 >= 16 || h2 >= 16 {
                    return None;
                }
                let v: u8 = h1 * 16 + h2;
                if v >= 0x20 {
                    return None;
                }
                push_char(&mut out, v as char);
                proof {
                    assert(s@.skip(p as int).skip(6) =~= s@.skip(p + 6));
                    let vr0 = match p_str(s@.skip(p + 6)) {
                        None => Seq::<char>::empty(),
                        Some(vr) => vr.0,
                    };
                    assert(before + (seq![v as char] + vr0) =~= before.push(v as char) + vr0);
                }
                p += 6;
                continue ;
            } else {
                return None;
            }
            proof {
                let d = out@.last();
                let vr0 = match p_str(s@.skip(p + 2)) {
                    None => Seq::<char>::empty(),
                    Some(vr) => vr.0,
                };
                assert(before + (seq![d] + vr0) =~= before.push(d) + vr0);
            }
            p += 2;
        } else if (c as u32) >= 0x20 {
            let ghost before = out@;
            push_char(&mut out, c);
            proof {
                assert(s@.skip(p as int).skip(1) =~= s@.skip(p + 1));
                let vr0 = match p_str(s@.skip(p + 1)) {
                    None => Seq::<char>::empty(),
                    Some(vr) => vr.0,
                };
                assert(before + (seq![c] + vr0) =~= before.push(c) + vr0);
            }
            p += 1;
        } else {
            return None;
        }
    }
}

/// Reads one record at position `pos`; the third key may be on the wire
/// shape or the internal one.
fn p_obj_at(s: &str, pos: usize, key2: &str) -> (r: Option<(Raw, usize)>)
    requires
        pos <= s@.len(),
    ensures
        match r {
            Some(vr) => pos <= vr.1 <= s@.len() && p_obj(s@.skip(pos as int), key2@) == Some(
                ((vr.0.f1@, vr.0.f2@, vr.0.f3@), s@.skip(vr.1 as int)),
            ),
            None => p_obj(s@.skip(pos as int), key2@) is None,
        },
{
    let p1 = match p_lit_at(s, pos, "{\"name\":\"") {
        None => {
            return None;
        },
        Some(x) => x,
    };
    let (f1, p2) = match p_str_at(s, p1) {
        None => {
            return None;
        },
        Some(x) => x,
    };
    let mut lit2 = String::new();
    push_char(&mut lit2, ',');
    push_char(&mut lit2, '"');
    lit2.append(key2);
    lit2.append("\":\"");
    proof {
        assert(lit2@ =~= lit_key(key2@));
    }
    let p3 = match p_lit_at(s, p2, lit2.as_str()) {
        None => {
            return None;
        },
        Some(x) => x,
    };
    let (f2, p4) = match p_str_at(s, p3) {
        None => {
            return None;
        },
        Some(x) => x,
    };
    let p5 = match p_lit_at(s, p4, ",\"documentURI\":\"") {
        None => {
            match p_lit_at(s, p4, ",\"document_uri\":\"") {
                None => {
                    return None;
                },
                Some(x) => x,
            }
        },
        Some(x) => x,
    };
    let (f3, p6) = match p_str_at(s, p5) {
        None => {
            return None;
        },
        Some(x) => x,
    };
    proof {
        reveal_strlit("}");
        assert("}"@ =~= seq!['}']);
    }
    let p7 = match p_lit_at(s, p6, "}") {
        None => {
            return None;
        },
        Some(x) => x,
    };
    Some((Raw { f1, f2, f3 }, p7))
}

/// Reads a whole collection document; the parse must use every character.
fn p_list(s: &str, key2: &str) -> (r: Option<Vec<Raw>>)
    ensures
        match r {
            Some(v) => p_triples(s@, key2@) == Some(raws_triples(v@)),
            None => p_triples(s@, key2@) is None,
        },
{
    let n = s.unicode_len();
    if n < 1 || s.get_char(0) != '[' {
        return None;
    }
    if n == 2 && s.get_char(1) == ']' {
        let out: Vec<Raw> = Vec::new();
        proof {
            assert(s@.skip(1).len() == 1 && s@.skip(1)[0] == ']');
            assert(raws_triples(out@) =~= Seq::<(Seq<char>, Seq<char>, Seq<char>)>::empty());
        }
        return Some(out);
    }
    proof {
        assert(!(s@.skip(1).len() == 1 && s@.skip(1)[0] == ']')) by {
            if s@.skip(1).len() == 1 {
                assert(s@.skip(1)[0] == s@[1]);
            }
        }
    }
    let mut out: Vec<Raw> = Vec::new();
    let mut pos: usize = 1;
    loop
        invariant
            1 <= pos <= n,
            n == s@.len(),
            (match p_items(s@.skip(pos as int), key2@) {
                None => p_items(s@.skip(1), key2@) is None,
                Some(tr) => p_items(s@.skip(1), key2@) == Some((raws_triples(out@) + tr.0, tr.1)),
            }),
            p_triples(s@, key2@) == (match p_items(s@.skip(1), key2@) {
                None => None::<Seq<(Seq<char>, Seq<char>, Seq<char>)>>,
                Some(tr) => if tr.1.len() == 0 {
                    Some(tr.0)
                } else {
                    None
                },
            }),
        decreases n - pos,
    {
        let (raw, np) = match p_obj_at(s, pos, key2) {
            None => {
                return None;
            },
            Some(x) => x,
        };
        let ghost rawv = (raw.f1@, raw.f2@, raw.f3@);
        let ghost before = out@;
        if np < n && s.get_char(np) == ',' {
            proof {
                assert(s@.skip(np as int)[0] == ',');
                assert(s@.skip(np as int).skip(1) =~= s@.skip(np + 1));
            }
            out.push(raw);
            proof {
                let tr0 = match p_items(s@.skip(np + 1), key2@) {
                    None => Seq::<(Seq<char>, Seq<char>, Seq<char>)>::empty(),
                    Some(tr) => tr.0,
                };
                assert(raws_triples(out@) =~~= raws_triples(before).push(rawv));
                assert(raws_triples(before) + (seq![rawv] + tr0) =~~= raws_triples(out@) + tr0);
            }
            if np + 1 >= n {
                proof {
                    assert(s@.skip(np + 1).len() == 0);
                }
                return None;
            }
            pos = np + 1;
        } else if np < n && s.get_char(np) == ']' {
            proof {
                assert(s@.skip(np as int)[0] == ']');
                assert(s@.skip(np as int).skip(1) =~= s@.skip(np + 1));
            }
            if np + 1 == n {
                out.push(raw);
                proof {
                    assert(s@.skip(np + 1).len() == 0);
                    assert(raws_triples(out@) =~~= raws_triples(before).push(rawv));
                    assert(raws_triples(before) + seq![rawv] =~~= raws_triples(out@));
                }
                return Some(out);
            } else {
                return None;
            }
        } else {
            proof {
                if np < n {
                    assert(s@.skip(np as int)[0] == s@[np as int]);
                }
            }
            return None;
        }
    }
}

/// Writes a service collection as one JSON document, the wire shape of
/// the cache.
pub fn services_to_json(v: &Vec<Service>) -> (r: String)
    ensures
        r@ == spec_ser_services(v.deep_view()),
{
    let ghost ts = v.deep_view().map_values(|s: SpecService| svc_triple(s));
    if v.len() == 0 {
        let out = String::from_str("[]");
        proof {
            reveal_strlit("[]");
            assert(out@ =~= seq!['[', ']']);
        }
        return out;
    }
    let mut out = String::new();
    push_char(&mut out, '[');
    let mut i: usize = 0;
    proof {
        assert(ts.skip(0) =~= ts);
    }
    while i < v.len()
        invariant
            i <= v@.len(),
            v.deep_view().len() == v@.len(),
            ts == v.deep_view().map_values(|s: SpecService| svc_triple(s)),
            ts.len() == v@.len(),
            ts.len() >= 1,
            out@ + ser_items(ts.skip(i as int), "code"@) == seq!['['] + ser_items(ts, "code"@),
        decreases v@.len() - i,
    {
        proof {
            assert(ts.skip(i as int)[0] == ts[i as int]);
            assert(ts[i as int] == svc_triple(v.deep_view()[i as int]));
            assert(v.deep_view()[i as int] == v@[i as int]@);
            assert(ts.skip(i as int).skip(1) =~= ts.skip(i + 1));
        }
        let ghost before = out@;
        obj_append(
            &mut out,
            v[i].name.as_str(),
            v[i].code.as_str(),
            v[i].document_uri.as_str(),
            "code",
        );
        if i + 1 == v.len() {
            push_char(&mut out, ']');
        } else {
            push_char(&mut out, ',');
        }
        proof {
            assert(out@ + ser_items(ts.skip(i + 1), "code"@) =~= before + ser_items(
                ts.skip(i as int),
                "code"@,
            ));
        }
        i += 1;
    }
    proof {
        assert(ts.skip(v@.len() as int) =~= Seq::<(Seq<char>, Seq<char>, Seq<char>)>::empty());
        assert(out@ =~= seq!['['] + ser_items(ts, "code"@));
    }
    out
}

/// Writes an action collection as one JSON document, the wire shape of
/// the cache.
pub fn actions_to_json(v: &Vec<Action>) -> (r: String)
    ensures
        r@ == spec_ser_actions(v.deep_view()),
{
    let ghost ts = v.deep_view().map_values(|a: SpecAction| act_triple(a));
    if v.len() == 0 {
        let out = String::from_str("[]");
        proof {
            reveal_strlit("[]");
            assert(out@ =~= seq!['[', ']']);
        }
        return out;
    }
    let mut out = String::new();
    push_char(&mut out, '[');
    let mut i: usize = 0;
    proof {
        assert(ts.skip(0) =~= ts);
    }
    while i < v.len()
        invariant
            i <= v@.len(),
            v.deep_view().len() == v@.len(),
            ts == v.deep_view().map_values(|a: SpecAction| act_triple(a)),
            ts.len() == v@.len(),
            ts.len() >= 1,
            out@ + ser_items(ts.skip(i as int), "description"@) == seq!['['] + ser_items(
                ts,
                "description"@,
            ),
        decreases v@.len() - i,
    {
        proof {
            assert(ts.skip(i as int)[0] == ts[i as int]);
            assert(ts[i as int] == act_triple(v.deep_view()[i as int]));
            assert(v.deep_view()[i as int] == v@[i as int]@);
            assert(ts.skip(i as int).skip(1) =~= ts.skip(i + 1));
        }
        let ghost before = out@;
        obj_append(
            &mut out,
            v[i].name.as_str(),
            v[i].description.as_str(),
            v[i].document_uri.as_str(),
            "description",
        );
        if i + 1 == v.len() {
            push_char(&mut out, ']');
        } else {
            push_char(&mut out, ',');
        }
        proof {
            assert(out@ + ser_items(ts.skip(i + 1), "description"@) =~= before + ser_items(
                ts.skip(i as int),
                "description"@,
            ));
        }
        i += 1;
    }
    proof {
        assert(ts.skip(v@.len() as int) =~= Seq::<(Seq<char>, Seq<char>, Seq<char>)>::empty());
        assert(out@ =~= seq!['['] + ser_items(ts, "description"@));
    }
    out
}

/// Reads a service collection back from one JSON cache document.
pub fn services_from_json(s: &str) -> (r: Option<Vec<Service>>)
    ensures
        (r is Some) == (spec_parse_services(s@) is Some),
        r matches Some(v) ==> v.deep_view() == spec_parse_services(s@)->Some_0,
{
    let raws = match p_list(s, "code") {
        None => {
            return None;
        },
        Some(x) => x,
    };
    let mut out: Vec<Service> = Vec::new();
    let mut i: usize = 0;
    while i < raws.len()
        invariant
            i <= raws@.len(),
            out@.len() == i,
            forall|k: int|
                0 <= k < i ==> (#[trigger] out@[k])@ == triples_services(raws_triples(raws@))[k],
        decreases raws@.len() - i,
    {
        let rw = &raws[i];
        let svc = Service {
            name: rw.f1.clone(),
            code: rw.f2.clone(),
            document_uri: rw.f3.clone(),
        };
        let ghost sv = svc@;
        out.push(svc);
        proof {
            let m = triples_services(raws_triples(raws@));
            assert(raws_triples(raws@)[i as int] == raw_triple(raws@[i as int]));
            assert(m[i as int] == triple_service(raw_triple(raws@[i as int])));
            assert(sv == m[i as int]);
        }
        i += 1;
    }
    proof {
        let m = triples_services(raws_triples(raws@));
        assert(out.deep_view().len() == out@.len());
        assert forall|k: int| 0 <= k < out@.len() implies out.deep_view()[k] == m[k] by {
            assert(out.deep_view()[k] == out@[k].deep_view());
        }
        assert(out.deep_view() =~= m);
    }
    Some(out)
}

/// Reads an action collection back from one JSON cache document.
pub fn actions_from_json(s: &str) -> (r: Option<Vec<Action>>)
    ensures
        (r is Some) == (spec_parse_actions(s@) is Some),
        r matches Some(v) ==> v.deep_view() == spec_parse_actions(s@)->Some_0,
{
    let raws = match p_list(s, "description") {
        None => {
            return None;
        },
        Some(x) => x,
    };
    let mut out: Vec<Action> = Vec::new();
    let mut i: usize = 0;
    while i < raws.len()
        invariant
            i <= raws@.len(),
            out@.len() == i,
            forall|k: int|
                0 <= k < i ==> (#[trigger] out@[k])@ == triples_actions(raws_triples(raws@))[k],
        decreases raws@.len() - i,
    {
        let rw = &raws[i];
        let act = Action {
            name: rw.f1.clone(),
            description: rw.f2.clone(),
            document_uri: rw.f3.clone(),
        };
        let ghost av = act@;
        out.push(act);
        proof {
            let m = triples_actions(raws_triples(raws@));
            assert(raws_triples(raws@)[i as int] == raw_triple(raws@[i as int]));
            assert(m[i as int] == triple_action(raw_triple(raws@[i as int])));
            assert(av == m[i as int]);
        }
        i += 1;
    }
    proof {
        let m = triples_actions(raws_triples(raws@));
        assert(out.deep_view().len() == out@.len());
        assert forall|k: int| 0 <= k < out@.len() implies out.deep_view()[k] == m[k] by {
            assert(out.deep_view()[k] == out@[k].deep_view());
        }
        assert(out.deep_view() =~= m);
    }
    Some(out)
}

/// Law: writing a service collection to the cache format and reading it
/// back gives an equal collection, field for field, with the wire key
/// `documentURI` mapped back onto the internal address field.
pub proof fn lemma_services_round_trip(ss: Seq<SpecService>)
    ensures
        spec_parse_services(spec_ser_services(ss)) == Some(ss),
{
    let ts = ss.map_values(|s: SpecService| svc_triple(s));
    lemma_triples_round_trip(ts, "code"@);
    assert(triples_services(ts) =~= ss);
}

/// Law: writing an action collection to the cache format and reading it
/// back gives an equal collection, field for field, with the wire key
/// `documentURI` mapped back onto the internal address field.
pub proof fn lemma_actions_round_trip(aa: Seq<SpecAction>)
    ensures
        spec_parse_actions(spec_ser_actions(aa)) == Some(aa),
{
    let ts = aa.map_values(|a: SpecAction| act_triple(a));
    lemma_triples_round_trip(ts, "description"@);
    assert(triples_actions(ts) =~= aa);
}

} // verus!
