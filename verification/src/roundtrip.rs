//! The codec round trip: parsing the canonical encoding of any well-formed
//! JSON value gives that value back. Decoding an inbound document, writing
//! it out again and decoding once more therefore loses nothing.

use vstd::prelude::*;
use crate::json::JsonSpec;
use crate::json::is_ws;
use crate::json::is_num_byte;
use crate::json::num_text_wf;
use crate::json::json_wf;
use crate::json::hex_digit;
use crate::json::esc_byte;
use crate::json::esc_bytes;
use crate::json::spec_encode;
use crate::json::spec_encode_elems;
use crate::json::spec_encode_members;
use crate::json::spec_encode_member;
use crate::json::jsize;
use crate::json::jsize_elems;
use crate::json::jsize_members;
use crate::parse::is_hex;
use crate::parse::hex_val;
use crate::parse::spec_hex4;
use crate::parse::utf8_enc;
use crate::parse::spec_parse_escape;
use crate::parse::spec_parse_strbody;
use crate::parse::spec_skip_ws;
use crate::parse::spec_munch_num;
use crate::parse::spec_parse_value;
use crate::parse::spec_parse_elems;
use crate::parse::spec_parse_members;
use crate::parse::spec_parse_json;

verus! {

/// Escaping works byte by byte, seen from the front.
proof fn lemma_esc_bytes_cons(s: Seq<u8>)
    requires
        s.len() > 0,
    ensures
        esc_bytes(s) == esc_byte(s[0]) + esc_bytes(s.skip(1)),
    decreases s.len(),
{
    if s.len() == 1 {
        assert(s.drop_last() =~= Seq::<u8>::empty());
        assert(s.skip(1) =~= Seq::<u8>::empty());
        assert(esc_bytes(s) == esc_bytes(s.drop_last()) + esc_byte(s.last()));
        assert(esc_byte(s[0]) + esc_bytes(s.skip(1)) =~= esc_byte(s[0]));
        assert(esc_bytes(Seq::<u8>::empty()) + esc_byte(s[0]) =~= esc_byte(s[0]));
    } else {
        let d = s.drop_last();
        lemma_esc_bytes_cons(d);
        assert(d[0] == s[0]);
        assert(d.skip(1) =~= s.skip(1).drop_last());
        assert(s.skip(1).last() == s.last());
        assert(esc_bytes(s.skip(1)) == esc_bytes(s.skip(1).drop_last()) + esc_byte(
            s.skip(1).last(),
        ));
        assert(esc_bytes(s) == (esc_byte(s[0]) + esc_bytes(d.skip(1))) + esc_byte(s.last()));
        assert((esc_byte(s[0]) + esc_bytes(d.skip(1))) + esc_byte(s.last()) =~= esc_byte(
            s[0],
        ) + (esc_bytes(d.skip(1)) + esc_byte(s.last())));
    }
}

/// The hex digit characters written by the encoder read back as the same
/// value.
proof fn lemma_hex_digit_inverts(x: u8)
    requires
        x < 16,
    ensures
        is_hex(hex_digit(x)),
        hex_val(hex_digit(x)) == x,
{
}

/// Parsing the escaped form of string contents, followed by the closing
/// quote, gives the contents back and stops right after the quote.
proof fn lemma_strbody_round(c: Seq<u8>, pre: Seq<u8>, suf: Seq<u8>, s: Seq<u8>)
    requires
        s == pre + esc_bytes(c) + seq![0x22u8] + suf,
    ensures
        spec_parse_strbody(s, pre.len() as int) == Some(
            (c, pre.len() as int + esc_bytes(c).len() as int + 1),
        ),
    decreases c.len(),
{
    let p = pre.len() as int;
    if c.len() == 0 {
        assert(esc_bytes(c) =~= Seq::<u8>::empty());
        assert(s =~= pre + seq![0x22u8] + suf);
        assert(s[p] == 0x22);
        assert(spec_parse_strbody(s, p) == Some((Seq::<u8>::empty(), p + 1)));
        assert(Seq::<u8>::empty() =~= c);
    } else {
        lemma_esc_bytes_cons(c);
        let e = esc_byte(c[0]);
        let rest = c.skip(1);
        let pre2 = pre + e;
        assert(s =~= pre2 + esc_bytes(rest) + seq![0x22u8] + suf);
        lemma_strbody_round(rest, pre2, suf, s);
        let b = c[0];
        assert forall|k: int| 0 <= k < e.len() implies s[p + k] == e[k] by {}
        if b == 0x22 || b == 0x5c {
            assert(s[p] == 0x5c && s[p + 1] == b);
            assert(spec_parse_escape(s, p + 1) == Some((seq![b], p + 2)));
            assert(seq![b] + rest =~= c);
        } else if b == 0x0a {
            assert(s[p] == 0x5c && s[p + 1] == 0x6e);
            assert(spec_parse_escape(s, p + 1) == Some((seq![0x0au8], p + 2)));
            assert(seq![0x0au8] + rest =~= c);
        } else if b == 0x0d {
            assert(s[p] == 0x5c && s[p + 1] == 0x72);
            assert(spec_parse_escape(s, p + 1) == Some((seq![0x0du8], p + 2)));
            assert(seq![0x0du8] + rest =~= c);
        } else if b == 0x09 {
            assert(s[p] == 0x5c && s[p + 1] == 0x74);
            assert(spec_parse_escape(s, p + 1) == Some((seq![0x09u8], p + 2)));
            assert(seq![0x09u8] + rest =~= c);
        } else if b < 0x20 {
            assert(e == seq![
                0x5cu8,
                0x75u8,
                0x30u8,
                0x30u8,
                hex_digit(b / 16),
                hex_digit(b % 16),
            ]);
            assert(s[p] == 0x5c && s[p + 1] == 0x75);
            assert(s[p + 2] == 0x30 && s[p + 3] == 0x30);
            assert(s[p + 4] == hex_digit(b / 16) && s[p + 5] == hex_digit(b % 16));
            lemma_hex_digit_inverts(b / 16);
            lemma_hex_digit_inverts(b % 16);
            assert(hex_val(0x30u8) == 0);
            let cp = spec_hex4(s, p + 2);
            assert(cp == Some(((hex_val(s[p + 2]) as int) * 0x1000 + (hex_val(
                s[p + 3],
            ) as int) * 0x100 + (hex_val(s[p + 4]) as int) * 0x10 + (hex_val(
                s[p + 5],
            ) as int)) as u32));
            let v = ((b / 16) as int * 0x10 + (b % 16) as int) as u32;
            assert(v == b as u32);
            assert(cp == Some(b as u32));
            assert(utf8_enc(b as u32) =~= seq![b]);
            assert(spec_parse_escape(s, p + 1) == Some((seq![b], p + 6)));
            assert(seq![b] + rest =~= c);
        } else {
            assert(e == seq![b]);
            assert(s[p] == b);
            assert(b != 0x22 && b != 0x5c && b >= 0x20);
            assert(seq![b] + rest =~= c);
        }
        assert(esc_bytes(c).len() == e.len() + esc_bytes(rest).len());
    }
}

/// A maximal run of number characters is read back exactly.
proof fn lemma_munch_at(s: Seq<u8>, i: int, j: int)
    requires
        0 <= i <= j <= s.len(),
        forall|k: int| i <= k < j ==> is_num_byte(#[trigger] s[k]),
        j < s.len() ==> !is_num_byte(s[j]),
    ensures
        spec_munch_num(s, i) == j,
    decreases j - i,
{
    if i < j {
        lemma_munch_at(s, i + 1, j);
    }
}

/// Skipping whitespace does not move off a non-whitespace byte.
proof fn lemma_skip_ws_stop(s: Seq<u8>, i: int)
    requires
        0 <= i,
        i < s.len() ==> !is_ws(s[i]),
    ensures
        spec_skip_ws(s, i) == i,
{
}

/// Every JSON tree has at least one node.
proof fn lemma_jsize_pos(v: JsonSpec)
    ensures
        jsize(v) >= 1,
{
}

/// The size of a list of elements, seen from the front.
proof fn lemma_jsize_elems_cons(es: Seq<JsonSpec>)
    requires
        es.len() > 0,
    ensures
        jsize_elems(es) == jsize(es[0]) + jsize_elems(es.skip(1)),
    decreases es.len(),
{
    if es.len() == 1 {
        assert(es.skip(1) =~= Seq::<JsonSpec>::empty());
        assert(es.drop_last() =~= Seq::<JsonSpec>::empty());
    } else {
        let d = es.drop_last();
        lemma_jsize_elems_cons(d);
        assert(d[0] == es[0]);
        assert(d.skip(1) =~= es.skip(1).drop_last());
        assert(es.skip(1).last() == es.last());
    }
}

/// The size of a list of members, seen from the front.
proof fn lemma_jsize_members_cons(ps: Seq<(Seq<u8>, JsonSpec)>)
    requires
        ps.len() > 0,
    ensures
        jsize_members(ps) == jsize(ps[0].1) + jsize_members(ps.skip(1)),
    decreases ps.len(),
{
    if ps.len() == 1 {
        assert(ps.skip(1) =~= Seq::<(Seq<u8>, JsonSpec)>::empty());
        assert(ps.drop_last() =~= Seq::<(Seq<u8>, JsonSpec)>::empty());
    } else {
        let d = ps.drop_last();
        lemma_jsize_members_cons(d);
        assert(d[0] == ps[0]);
        assert(d.skip(1) =~= ps.skip(1).drop_last());
        assert(ps.skip(1).last() == ps.last());
    }
}

/// The encoding of a list of elements, seen from the front.
proof fn lemma_enc_elems_cons(es: Seq<JsonSpec>)
    requires
        es.len() > 0,
    ensures
        es.len() == 1 ==> spec_encode_elems(es) == spec_encode(es[0]),
        es.len() > 1 ==> spec_encode_elems(es) == spec_encode(es[0]) + seq![0x2cu8]
            + spec_encode_elems(es.skip(1)),
    decreases es.len(),
{
    if es.len() > 1 {
        let d = es.drop_last();
        lemma_enc_elems_cons(d);
        assert(d[0] == es[0]);
        assert(d.skip(1) =~= es.skip(1).drop_last());
        assert(es.skip(1).last() == es.last());
        if es.len() == 2 {
            assert(es.skip(1) =~= seq![es[1]]);
            assert(spec_encode_elems(es.skip(1)) == spec_encode(es[1]));
            assert(spec_encode_elems(es) == spec_encode(es[0]) + seq![0x2cu8] + spec_encode(
                es[1],
            ));
        } else {
            assert(spec_encode_elems(es) == (spec_encode(d[0]) + seq![0x2cu8]
                + spec_encode_elems(d.skip(1))) + seq![0x2cu8] + spec_encode(es.last()));
            assert(spec_encode_elems(es.skip(1)) == spec_encode_elems(es.skip(1).drop_last())
                + seq![0x2cu8] + spec_encode(es.skip(1).last()));
            assert((spec_encode(es[0]) + seq![0x2cu8] + spec_encode_elems(d.skip(1)))
                + seq![0x2cu8] + spec_encode(es.last()) =~= spec_encode(es[0]) + seq![0x2cu8]
                + (spec_encode_elems(d.skip(1)) + seq![0x2cu8] + spec_encode(es.last())));
        }
    }
}

/// The encoding of a list of members, seen from the front.
proof fn lemma_enc_members_cons(ps: Seq<(Seq<u8>, JsonSpec)>)
    requires
        ps.len() > 0,
    ensures
        ps.len() == 1 ==> spec_encode_members(ps) == spec_encode_member(ps[0]),
        ps.len() > 1 ==> spec_encode_members(ps) == spec_encode_member(ps[0]) + seq![0x2cu8]
            + spec_encode_members(ps.skip(1)),
    decreases ps.len(),
{
    if ps.len() > 1 {
        let d = ps.drop_last();
        lemma_enc_members_cons(d);
        assert(d[0] == ps[0]);
        assert(d.skip(1) =~= ps.skip(1).drop_last());
        assert(ps.skip(1).last() == ps.last());
        if ps.len() == 2 {
            assert(ps.skip(1) =~= seq![ps[1]]);
            assert(spec_encode_members(ps.skip(1)) == spec_encode_member(ps[1]));
            assert(spec_encode_members(ps) == spec_encode_member(ps[0]) + seq![0x2cu8]
                + spec_encode_member(ps[1]));
        } else {
            assert(spec_encode_members(ps) == (spec_encode_member(d[0]) + seq![0x2cu8]
                + spec_encode_members(d.skip(1))) + seq![0x2cu8] + spec_encode_member(
                ps.last(),
            ));
            assert(spec_encode_members(ps.skip(1)) == spec_encode_members(
                ps.skip(1).drop_last(),
            ) + seq![0x2cu8] + spec_encode_member(ps.skip(1).last()));
            assert((spec_encode_member(ps[0]) + seq![0x2cu8] + spec_encode_members(d.skip(1)))
                + seq![0x2cu8] + spec_encode_member(ps.last()) =~= spec_encode_member(ps[0])
                + seq![0x2cu8] + (spec_encode_members(d.skip(1)) + seq![0x2cu8]
                + spec_encode_member(ps.last())));
        }
    }
}

/// Every encoding is non-empty and starts with a byte that is neither
/// whitespace nor a closing bracket, brace or comma.
proof fn lemma_encode_first(v: JsonSpec)
    requires
        json_wf(v),
    ensures
        spec_encode(v).len() > 0,
        !is_ws(spec_encode(v)[0]),
        spec_encode(v)[0] != 0x5d,
        spec_encode(v)[0] != 0x7d,
        spec_encode(v)[0] != 0x2c,
{
    match v {
        JsonSpec::Null => {},
        JsonSpec::Bool(_) => {},
        JsonSpec::Num(t) => {
            assert(spec_encode(v) == t);
        },
        JsonSpec::Str(c) => {
            assert(spec_encode(v)[0] == 0x22);
        },
        JsonSpec::Arr(es) => {
            assert(spec_encode(v)[0] == 0x5b);
        },
        JsonSpec::Obj(ps) => {
            assert(spec_encode(v)[0] == 0x7b);
        },
    }
}



/// The round trip for the leaf values: literals, numbers and strings.
#[verifier::rlimit(100)]
proof fn lemma_value_round_leaf(v: JsonSpec, pre: Seq<u8>, suf: Seq<u8>, s: Seq<u8>)
    requires
        json_wf(v),
        !(v is Arr),
        !(v is Obj),
        s == pre + spec_encode(v) + suf,
        v is Num ==> suf.len() == 0 || !is_num_byte(suf[0]),
    ensures
        spec_parse_value(s, pre.len() as int) is Some,
        spec_parse_value(s, pre.len() as int)->Some_0.0 == v,
        spec_parse_value(s, pre.len() as int)->Some_0.1 == pre.len() + spec_encode(v).len(),
{
    let p = pre.len() as int;
    match v {
        JsonSpec::Null => {
            assert(v is Null);
            assert(spec_encode(v).len() == 4);
            assert(s[p] == 0x6e && s[p + 1] == 0x75 && s[p + 2] == 0x6c && s[p + 3] == 0x6c);
            assert(spec_parse_value(s, p) == Some((v, p + 4)));
            assert(spec_parse_value(s, p)->Some_0.0 == v);
        },
        JsonSpec::Bool(b) => {
            if b {
                assert(s[p] == 0x74 && s[p + 1] == 0x72 && s[p + 2] == 0x75 && s[p + 3]
                    == 0x65);
                assert(spec_parse_value(s, p) == Some((v, p + 4)));
                assert(spec_parse_value(s, p)->Some_0.0 == v);
            } else {
                assert(s[p] == 0x66 && s[p + 1] == 0x61 && s[p + 2] == 0x6c && s[p + 3]
                    == 0x73 && s[p + 4] == 0x65);
                assert(spec_parse_value(s, p) == Some((v, p + 5)));
                assert(spec_parse_value(s, p)->Some_0.0 == v);
            }
        },
        JsonSpec::Num(t) => {
            assert(spec_encode(v) == t);
            assert(s[p] == t[0]);
            assert forall|k: int| p <= k < p + t.len() implies is_num_byte(
                #[trigger] s[k],
            ) by {
                assert(s[k] == t[k - p]);
            }
            if p + t.len() < s.len() {
                assert(s[p + t.len()] == suf[0]);
            }
            lemma_munch_at(s, p, p + t.len() as int);
            assert(s.subrange(p, p + t.len() as int) =~= t);
            assert(s.subrange(p, p + t.len() as int) == t);
            assert(JsonSpec::Num(s.subrange(p, p + t.len() as int)) == v);
            assert(spec_parse_value(s, p) == Some((v, p + t.len() as int)));
            assert(spec_parse_value(s, p)->Some_0.0 == v);
        },
        JsonSpec::Str(c) => {
            assert(s[p] == 0x22);
            let pre2 = pre + seq![0x22u8];
            assert(s =~= pre2 + esc_bytes(c) + seq![0x22u8] + suf);
            lemma_strbody_round(c, pre2, suf, s);
            assert(spec_parse_strbody(s, p + 1) == Some(
                (c, p + 1 + esc_bytes(c).len() as int + 1),
            ));
            assert(spec_parse_value(s, p) == Some(
                (v, p + spec_encode(v).len() as int),
            ));
            assert(spec_parse_value(s, p)->Some_0.0 == v);
        },
        _ => {
            assert(spec_parse_value(s, p)->Some_0.0 == v);
        },
    }
}

/// Parsing the canonical encoding of a well-formed value, in any context,
/// gives the value back and stops exactly at its end.
#[verifier::rlimit(100)]
#[verifier::spinoff_prover]
proof fn lemma_value_round(v: JsonSpec, pre: Seq<u8>, suf: Seq<u8>, s: Seq<u8>)
    requires
        json_wf(v),
        s == pre + spec_encode(v) + suf,
        v is Num ==> suf.len() == 0 || !is_num_byte(suf[0]),
    ensures
        spec_parse_value(s, pre.len() as int) is Some,
        spec_parse_value(s, pre.len() as int)->Some_0.0 == v,
        spec_parse_value(s, pre.len() as int)->Some_0.1 == pre.len() + spec_encode(v).len(),
    decreases jsize(v), 0int,
{
    let p = pre.len() as int;
    match v {
        JsonSpec::Null => {
            lemma_value_round_leaf(v, pre, suf, s);
        },
        JsonSpec::Bool(_) => {
            lemma_value_round_leaf(v, pre, suf, s);
        },
        JsonSpec::Num(_) => {
            lemma_value_round_leaf(v, pre, suf, s);
        },
        JsonSpec::Str(_) => {
            lemma_value_round_leaf(v, pre, suf, s);
        },
        JsonSpec::Arr(es) => {
            assert(s[p] == 0x5b);
            if es.len() == 0 {
                assert(es =~= Seq::<JsonSpec>::empty());
                assert(spec_encode_elems(es) =~= Seq::<u8>::empty());
                assert(s[p + 1] == 0x5d);
                lemma_skip_ws_stop(s, p + 1);
                assert(spec_parse_value(s, p) == Some((JsonSpec::Arr(Seq::empty()), p + 2)));
                assert(spec_parse_value(s, p)->Some_0.0 == v);
            } else {
                lemma_enc_elems_cons(es);
                assert(json_wf(es[0]));
                lemma_encode_first(es[0]);
                assert(s[p + 1] == spec_encode(es[0])[0]);
                lemma_skip_ws_stop(s, p + 1);
                let pre2 = pre + seq![0x5bu8];
                assert(s =~= pre2 + spec_encode_elems(es) + seq![0x5du8] + suf);
                lemma_elems_round(es, pre2, suf, s);
            }
        },
        JsonSpec::Obj(ps) => {
            assert(s[p] == 0x7b);
            if ps.len() == 0 {
                assert(ps =~= Seq::<(Seq<u8>, JsonSpec)>::empty());
                assert(spec_encode_members(ps) =~= Seq::<u8>::empty());
                assert(s[p + 1] == 0x7d);
                lemma_skip_ws_stop(s, p + 1);
                assert(spec_parse_value(s, p) == Some((JsonSpec::Obj(Seq::empty()), p + 2)));
                assert(spec_parse_value(s, p)->Some_0.0 == v);
            } else {
                lemma_enc_members_cons(ps);
                assert(spec_encode_member(ps[0])[0] == 0x22);
                assert(s[p + 1] == 0x22);
                lemma_skip_ws_stop(s, p + 1);
                let pre2 = pre + seq![0x7bu8];
                assert(s =~= pre2 + spec_encode_members(ps) + seq![0x7du8] + suf);
                lemma_members_round(ps, pre2, suf, s);
            }
        },
    }
}

/// Parsing an encoded, non-empty element list followed by the closing
/// bracket gives the list back.
#[verifier::rlimit(100)]
#[verifier::spinoff_prover]
proof fn lemma_elems_round(es: Seq<JsonSpec>, pre: Seq<u8>, suf: Seq<u8>, s: Seq<u8>)
    requires
        es.len() > 0,
        forall|i: int| 0 <= i < es.len() ==> json_wf(#[trigger] es[i]),
        s == pre + spec_encode_elems(es) + seq![0x5du8] + suf,
    ensures
        spec_parse_elems(s, pre.len() as int) == Some(
            (es, pre.len() as int + spec_encode_elems(es).len() as int + 1),
        ),
    decreases jsize_elems(es), 2int,
{
    let p = pre.len() as int;
    let v0 = es[0];
    assert(json_wf(v0));
    lemma_enc_elems_cons(es);
    lemma_jsize_elems_cons(es);
    lemma_jsize_pos(v0);
    let e0 = spec_encode(v0);
    let q = p + e0.len() as int;
    if es.len() == 1 {
        assert(s =~= pre + e0 + (seq![0x5du8] + suf));
        lemma_value_round(v0, pre, seq![0x5du8] + suf, s);
        assert(s[q] == 0x5d);
        lemma_skip_ws_stop(s, q);
        assert(seq![v0] =~= es);
    } else {
        let rest = es.skip(1);
        assert(forall|i: int|
            0 <= i < rest.len() ==> json_wf(#[trigger] rest[i]) && rest[i] == es[i + 1]);
        let tail_bytes = seq![0x2cu8] + spec_encode_elems(rest) + seq![0x5du8] + suf;
        assert(s =~= pre + e0 + tail_bytes);
        lemma_value_round(v0, pre, tail_bytes, s);
        assert(s[q] == 0x2c);
        lemma_skip_ws_stop(s, q);
        lemma_enc_elems_cons(rest);
        assert(json_wf(rest[0]));
        lemma_encode_first(rest[0]);
        assert(s[q + 1] == spec_encode(rest[0])[0]);
        lemma_skip_ws_stop(s, q + 1);
        let pre2 = pre + e0 + seq![0x2cu8];
        assert(s =~= pre2 + spec_encode_elems(rest) + seq![0x5du8] + suf);
        lemma_elems_round(rest, pre2, suf, s);
        assert(seq![v0] + rest =~= es);
    }
}


/// The round trip for one object member up to its value: the key string,
/// the colon, and the member value.
#[verifier::rlimit(100)]
#[verifier::spinoff_prover]
proof fn lemma_member_round(key: Seq<u8>, v0: JsonSpec, pre: Seq<u8>, after: Seq<u8>, s: Seq<u8>)
    requires
        json_wf(v0),
        s == pre + spec_encode_member((key, v0)) + after,
        v0 is Num ==> after.len() == 0 || !is_num_byte(after[0]),
    ensures
        spec_parse_strbody(s, pre.len() as int + 1) == Some(
            (key, pre.len() as int + 1 + esc_bytes(key).len() as int + 1),
        ),
        s[pre.len() as int] == 0x22,
        s[pre.len() as int + 1 + esc_bytes(key).len() as int + 1] == 0x3a,
        spec_parse_value(s, pre.len() as int + 1 + esc_bytes(key).len() as int + 2) is Some,
        spec_parse_value(s, pre.len() as int + 1 + esc_bytes(key).len() as int + 2)->Some_0.0
            == v0,
        spec_parse_value(s, pre.len() as int + 1 + esc_bytes(key).len() as int + 2)->Some_0.1
            == pre.len() + spec_encode_member((key, v0)).len(),
    decreases jsize(v0), 1int,
{
    let p = pre.len() as int;
    let m0 = spec_encode_member((key, v0));
    let e0 = spec_encode(v0);
    assert(m0 == seq![0x22u8] + esc_bytes(key) + seq![0x22u8, 0x3au8] + e0);
    let pre_key = pre + seq![0x22u8];
    let after_key = p + 1 + esc_bytes(key).len() as int + 1;
    let tail0 = seq![0x3au8] + e0 + after;
    assert(s =~= pre_key + esc_bytes(key) + seq![0x22u8] + tail0);
    lemma_strbody_round(key, pre_key, tail0, s);
    assert(s[p] == 0x22);
    assert(s[after_key] == 0x3a);
    let pre_val = pre + seq![0x22u8] + esc_bytes(key) + seq![0x22u8, 0x3au8];
    assert(pre_val.len() == after_key + 1);
    assert(s =~= pre_val + e0 + after);
    lemma_value_round(v0, pre_val, after, s);
}

/// Parsing an encoded, non-empty member list followed by the closing
/// brace gives the list back.
#[verifier::rlimit(100)]
#[verifier::spinoff_prover]
proof fn lemma_members_round(ps: Seq<(Seq<u8>, JsonSpec)>, pre: Seq<u8>, suf: Seq<u8>, s: Seq<u8>)
    requires
        ps.len() > 0,
        forall|i: int| 0 <= i < ps.len() ==> json_wf((#[trigger] ps[i]).1),
        s == pre + spec_encode_members(ps) + seq![0x7du8] + suf,
    ensures
        spec_parse_members(s, pre.len() as int) == Some(
            (ps, pre.len() as int + spec_encode_members(ps).len() as int + 1),
        ),
    decreases jsize_members(ps), 2int,
{
    let p = pre.len() as int;
    let key = ps[0].0;
    let v0 = ps[0].1;
    assert(json_wf(v0));
    lemma_enc_members_cons(ps);
    lemma_jsize_members_cons(ps);
    lemma_jsize_pos(v0);
    lemma_encode_first(v0);
    let m0 = spec_encode_member(ps[0]);
    let e0 = spec_encode(v0);
    assert(m0 == seq![0x22u8] + esc_bytes(key) + seq![0x22u8, 0x3au8] + e0);
    let after_key = p + 1 + esc_bytes(key).len() as int + 1;
    let val_at = after_key + 1;
    let n = p + m0.len() as int;
    assert((key, v0) == ps[0]);
    if ps.len() == 1 {
        let after = seq![0x7du8] + suf;
        assert(s =~= pre + m0 + after);
        lemma_member_round(key, v0, pre, after, s);
        lemma_skip_ws_stop(s, after_key);
        assert(s[val_at] == m0[val_at - p]);
        assert(m0[val_at - p] == e0[0]);
        lemma_skip_ws_stop(s, val_at);
        assert(s[n] == 0x7d);
        lemma_skip_ws_stop(s, n);
        assert(seq![(key, v0)] =~= ps);
    } else {
        let rest = ps.skip(1);
        assert(forall|i: int|
            0 <= i < rest.len() ==> json_wf((#[trigger] rest[i]).1) && rest[i] == ps[i + 1]);
        let after = seq![0x2cu8] + spec_encode_members(rest) + seq![0x7du8] + suf;
        assert(s =~= pre + m0 + after);
        lemma_member_round(key, v0, pre, after, s);
        lemma_skip_ws_stop(s, after_key);
        assert(s[val_at] == m0[val_at - p]);
        assert(m0[val_at - p] == e0[0]);
        lemma_skip_ws_stop(s, val_at);
        assert(s[n] == 0x2c);
        lemma_skip_ws_stop(s, n);
        lemma_enc_members_cons(rest);
        assert(spec_encode_member(rest[0])[0] == 0x22);
        assert(s[n + 1] == 0x22);
        lemma_skip_ws_stop(s, n + 1);
        let pre2 = pre + m0 + seq![0x2cu8];
        assert(s =~= pre2 + spec_encode_members(rest) + seq![0x7du8] + suf);
        lemma_members_round(rest, pre2, suf, s);
        assert(seq![(key, v0)] + rest =~= ps);
    }
}

/// The round trip: parsing the canonical encoding of any well-formed JSON
/// value gives exactly that value.
pub proof fn lemma_parse_encode(v: JsonSpec)
    requires
        json_wf(v),
    ensures
        spec_parse_json(spec_encode(v)) == Some(v),
{
    let s = spec_encode(v);
    lemma_encode_first(v);
    lemma_skip_ws_stop(s, 0);
    assert(s =~= Seq::<u8>::empty() + s + Seq::<u8>::empty());
    lemma_value_round(v, Seq::empty(), Seq::empty(), s);
    lemma_skip_ws_stop(s, s.len() as int);
}

/// Writing a decoded inbound document out again and decoding once more
/// gives the same outcome: nothing of the payload is lost in the round
/// trip.
pub proof fn lemma_decode_reencode(s: Seq<u8>, doc: JsonSpec)
    requires
        spec_parse_json(s) == Some(doc),
        json_wf(doc),
    ensures
        crate::event::spec_decode(spec_encode(doc)) == crate::event::spec_decode(s),
{
    lemma_parse_encode(doc);
}

} // verus!
