//! The canonical text of types against the parser: parsing it gives the
//! types back, and whatever the parser accepts is such a text.
use vstd::prelude::*;

use crate::signature::{
    lemma_parse_members_advances, lemma_parse_node_advances, lemma_simple_of_symbol, parse_members,
    parse_node, parse_signature, parse_types, sig, sigs, sigs_from, simple_category, simple_of,
    symbol, category, SignatureError, SimpleType, Ty, MAX_SIGNATURE_LEN, TERMINATOR,
};

verus! {

/// The canonical text of a type is not empty, and its first character opens a
/// type: it is none of `{`, `}`, `)` and the terminator.
pub proof fn lemma_sig_first(t: Ty)
    ensures
        sig(t).len() > 0,
        sig(t)[0] != '{',
        sig(t)[0] != '}',
        sig(t)[0] != ')',
        sig(t)[0] != TERMINATOR,
{
    match t {
        Ty::Simple(k) => {},
        Ty::Struct(ms) => {},
        Ty::Array(e) => {},
        Ty::Variant => {},
        Ty::Dict(k, v) => {},
    }
}

/// Where the canonical text of `t` stands in `s` at `pos`, the parser reads `t`
/// there and ends just after the text.
pub proof fn lemma_parse_node_sig(s: Seq<char>, pos: int, t: Ty)
    requires
        0 <= pos,
        pos + sig(t).len() <= s.len(),
        s.subrange(pos, pos + sig(t).len()) == sig(t),
    ensures
        parse_node(s, pos) == Ok::<Option<(Ty, int)>, SignatureError>(Some((t, pos + sig(t).len()))),
    decreases t, 0int,
{
    let n = sig(t).len() as int;
    lemma_sig_first(t);
    assert(s[pos] == s.subrange(pos, pos + n)[0]);
    match t {
        Ty::Simple(k) => {
            lemma_simple_of_symbol(k);
        },
        Ty::Struct(ms) => {
            assert(decreases_to!(t => t->Struct_0));
            assert(s.subrange(pos + 1, pos + n) =~= sigs_from(ms, 0) + seq![')']) by {
                assert(s.subrange(pos + 1, pos + n) =~= s.subrange(pos, pos + n).subrange(1, n));
            }
            lemma_parse_members_sig(s, pos + 1, pos, ms, 0);
            assert(ms.subrange(0, ms.len() as int) =~= ms);
        },
        Ty::Array(e) => {
            let m = sig(*e).len() as int;
            assert(s.subrange(pos + 1, pos + 1 + m) =~= sig(*e)) by {
                assert(s.subrange(pos + 1, pos + 1 + m) =~= s.subrange(pos, pos + n).subrange(1, n));
            }
            lemma_sig_first(*e);
            assert(s[pos + 1] == s.subrange(pos + 1, pos + 1 + m)[0]);
            lemma_parse_node_sig(s, pos + 1, *e);
        },
        Ty::Variant => {},
        Ty::Dict(k, v) => {
            let m = sig(*v).len() as int;
            assert(s[pos + 1] == s.subrange(pos, pos + n)[1]);
            assert(s[pos + 2] == s.subrange(pos, pos + n)[2]);
            assert(s[pos + 3 + m] == s.subrange(pos, pos + n)[3 + m]);
            assert(s.subrange(pos + 3, pos + 3 + m) =~= sig(*v)) by {
                assert(s.subrange(pos + 3, pos + 3 + m) =~= s.subrange(pos, pos + n).subrange(3, 3 + m));
            }
            lemma_simple_of_symbol(k);
            lemma_parse_node_sig(s, pos + 3, *v);
        },
    }
}

/// Where the canonical texts of `ms[i..]` and a `)` stand in `s` at `pos`, the
/// parser reads those members there and ends just after the `)`.
pub proof fn lemma_parse_members_sig(s: Seq<char>, pos: int, open: int, ms: Seq<Ty>, i: int)
    requires
        0 <= i <= ms.len(),
        0 <= pos,
        pos + sigs_from(ms, i).len() + 1 <= s.len(),
        s.subrange(pos, pos + sigs_from(ms, i).len() + 1) == sigs_from(ms, i) + seq![')'],
    ensures
        parse_members(s, pos, open) == Ok::<(Seq<Ty>, int), SignatureError>(
            (ms.subrange(i, ms.len() as int), pos + sigs_from(ms, i).len() + 1),
        ),
    decreases ms, ms.len() - i,
{
    let l = sigs_from(ms, i).len() as int;
    assert(s[pos] == s.subrange(pos, pos + l + 1)[0]);
    if i == ms.len() {
        assert(ms.subrange(i, ms.len() as int) =~= Seq::<Ty>::empty());
    } else {
        assert(decreases_to!(ms => ms[i]));
        let a = sig(ms[i]).len() as int;
        let rest = sigs_from(ms, i + 1);
        lemma_sig_first(ms[i]);
        assert(s.subrange(pos, pos + a) =~= sig(ms[i])) by {
            assert(s.subrange(pos, pos + a) =~= s.subrange(pos, pos + l + 1).subrange(0, a));
        }
        assert(s[pos] == s.subrange(pos, pos + a)[0]);
        lemma_parse_node_sig(s, pos, ms[i]);
        assert(s.subrange(pos + a, pos + a + rest.len() + 1) =~= rest + seq![')']) by {
            assert(s.subrange(pos + a, pos + a + rest.len() + 1) =~= s.subrange(pos, pos + l + 1).subrange(a, l + 1));
        }
        lemma_parse_members_sig(s, pos + a, open, ms, i + 1);
        assert(seq![ms[i]] + ms.subrange(i + 1, ms.len() as int) =~= ms.subrange(i, ms.len() as int));
    }
}

/// Where `s` from `pos` on is the canonical texts of `ts[i..]`, the parser
/// reads exactly those types.
pub proof fn lemma_parse_types_sigs(s: Seq<char>, pos: int, ts: Seq<Ty>, i: int)
    requires
        0 <= i <= ts.len(),
        0 <= pos <= s.len(),
        s.subrange(pos, s.len() as int) == sigs_from(ts, i),
    ensures
        parse_types(s, pos) == Ok::<Seq<Ty>, SignatureError>(ts.subrange(i, ts.len() as int)),
    decreases ts.len() - i,
{
    if i == ts.len() {
        assert(s.subrange(pos, s.len() as int).len() == 0);
        assert(ts.subrange(i, ts.len() as int) =~= Seq::<Ty>::empty());
    } else {
        let a = sig(ts[i]).len() as int;
        lemma_sig_first(ts[i]);
        assert(sigs_from(ts, i) == sig(ts[i]) + sigs_from(ts, i + 1));
        assert(s[pos] == s.subrange(pos, s.len() as int)[0]);
        assert(s.subrange(pos, pos + a) =~= sig(ts[i])) by {
            assert(s.subrange(pos, pos + a) =~= s.subrange(pos, s.len() as int).subrange(0, a));
        }
        lemma_parse_node_sig(s, pos, ts[i]);
        assert(s.subrange(pos + a, s.len() as int) =~= sigs_from(ts, i + 1)) by {
            assert(s.subrange(pos + a, s.len() as int) =~= s.subrange(pos, s.len() as int).subrange(a, s.len() - pos));
        }
        lemma_parse_types_sigs(s, pos + a, ts, i + 1);
        assert(seq![ts[i]] + ts.subrange(i + 1, ts.len() as int) =~= ts.subrange(i, ts.len() as int));
    }
}

/// Parsing the canonical text of any sequence of types, within the length
/// limit, gives back exactly those types.
pub proof fn lemma_parse_sigs(ts: Seq<Ty>)
    requires
        sigs(ts).len() <= MAX_SIGNATURE_LEN,
    ensures
        parse_signature(sigs(ts)) == Ok::<Seq<Ty>, SignatureError>(ts),
{
    let s = sigs(ts);
    assert(s.subrange(0, s.len() as int) =~= s);
    lemma_parse_types_sigs(s, 0, ts, 0);
    assert(ts.subrange(0, ts.len() as int) =~= ts);
}

/// The canonical text of one type is that of the sequence holding it alone.
pub proof fn lemma_sigs_single(t: Ty)
    ensures
        sigs(seq![t]) == sig(t),
{
    assert(sigs_from(seq![t], 1) == Seq::<char>::empty());
    assert(sig(t) + Seq::<char>::empty() =~= sig(t));
}

/// Parsing the symbol of a simple type gives that type alone, whose category
/// is the type's own and whose canonical text is the symbol again.
pub proof fn lemma_parse_simple(k: SimpleType)
    ensures
        parse_signature(seq![symbol(k)]) == Ok::<Seq<Ty>, SignatureError>(seq![Ty::Simple(k)]),
        category(Ty::Simple(k)) == simple_category(k),
        sig(Ty::Simple(k)) == seq![symbol(k)],
{
    lemma_sigs_single(Ty::Simple(k));
    lemma_parse_sigs(seq![Ty::Simple(k)]);
}

/// Any text longer than the limit is refused for its length alone.
pub proof fn lemma_too_long(s: Seq<char>)
    requires
        s.len() > MAX_SIGNATURE_LEN,
    ensures
        parse_signature(s) == Err::<Seq<Ty>, SignatureError>(SignatureError::TooLong),
{
}

/// Texts of a sequence shifted by one type in front.
proof fn lemma_sigs_from_shift(t: Ty, ms: Seq<Ty>, i: int)
    requires
        0 <= i <= ms.len(),
    ensures
        sigs_from(seq![t] + ms, i + 1) == sigs_from(ms, i),
    decreases ms.len() - i,
{
    let a = seq![t] + ms;
    if i < ms.len() {
        lemma_sigs_from_shift(t, ms, i + 1);
        assert(a[i + 1] == ms[i]);
    }
}

/// The texts of a sequence with one type in front are that type's text, then
/// the others'.
pub proof fn lemma_sigs_cons(t: Ty, ms: Seq<Ty>)
    ensures
        sigs(seq![t] + ms) == sig(t) + sigs(ms),
{
    lemma_sigs_from_shift(t, ms, 0);
    assert((seq![t] + ms)[0] == t);
}

/// What the parser reads as one type is that type's canonical text.
pub proof fn lemma_parse_node_sound(s: Seq<char>, pos: int)
    ensures
        parse_node(s, pos) matches Ok(Some((t, q))) ==> pos < q <= s.len() && s.subrange(pos, q) == sig(t),
    decreases s.len() - pos, 0int,
{
    lemma_parse_node_advances(s, pos);
    if 0 <= pos < s.len() {
        let c = s[pos];
        if simple_of(c) is Some {
            let k = simple_of(c)->Some_0;
            assert(s.subrange(pos, pos + 1) =~= seq![symbol(k)]);
        } else if c == '(' {
            lemma_parse_members_sound(s, pos + 1, pos);
            if let Ok((ms, q)) = parse_members(s, pos + 1, pos) {
                assert(s.subrange(pos, q) =~= seq!['('] + s.subrange(pos + 1, q));
            }
        } else if c == 'a' && pos + 1 < s.len() && s[pos + 1] == '{' {
            if pos + 2 < s.len() && simple_of(s[pos + 2]) is Some {
                let k = simple_of(s[pos + 2])->Some_0;
                lemma_parse_node_sound(s, pos + 3);
                if let Ok(Some((v, q))) = parse_node(s, pos + 3) {
                    if 0 <= q < s.len() && s[q] == '}' {
                        assert(s.subrange(pos, q + 1) =~= seq!['a', '{', symbol(k)] + s.subrange(pos + 3, q) + seq!['}']);
                    }
                }
            }
        } else if c == 'a' {
            lemma_parse_node_sound(s, pos + 1);
            if let Ok(Some((e, q))) = parse_node(s, pos + 1) {
                assert(s.subrange(pos, q) =~= seq!['a'] + s.subrange(pos + 1, q));
            }
        } else if c == 'v' {
            assert(s.subrange(pos, pos + 1) =~= seq!['v']);
        }
    }
}

/// What the parser reads as the members of a struct is their texts and the `)`.
pub proof fn lemma_parse_members_sound(s: Seq<char>, pos: int, open: int)
    ensures
        parse_members(s, pos, open) matches Ok((ms, q)) ==> pos < q <= s.len() && s.subrange(pos, q) == sigs(ms) + seq![')'],
    decreases s.len() - pos, 1int,
{
    lemma_parse_members_advances(s, pos, open);
    if 0 <= pos < s.len() {
        if s[pos] == ')' {
            assert(s.subrange(pos, pos + 1) =~= sigs(Seq::<Ty>::empty()) + seq![')']);
        } else {
            lemma_parse_node_sound(s, pos);
            if let Ok(Some((t, q))) = parse_node(s, pos) {
                if pos < q <= s.len() {
                    lemma_parse_members_sound(s, q, open);
                    if let Ok((ms, r)) = parse_members(s, q, open) {
                        lemma_sigs_cons(t, ms);
                        assert(s.subrange(pos, r) =~= s.subrange(pos, q) + s.subrange(q, r));
                        assert(sigs(seq![t] + ms) + seq![')'] =~= sig(t) + (sigs(ms) + seq![')']));
                    }
                }
            }
        }
    }
}

/// What the parser reads as the top-level types from `pos` is their texts,
/// then at most a terminator.
proof fn lemma_parse_types_sound(s: Seq<char>, pos: int)
    requires
        0 <= pos <= s.len(),
    ensures
        parse_types(s, pos) matches Ok(ts) ==> s.subrange(pos, s.len() as int) == sigs(ts)
            || s.subrange(pos, s.len() as int) == sigs(ts).push(TERMINATOR),
    decreases s.len() - pos,
{
    if pos == s.len() {
        assert(s.subrange(pos, s.len() as int) =~= sigs(Seq::<Ty>::empty()));
    } else if s[pos] == TERMINATOR {
        if pos + 1 == s.len() {
            assert(s.subrange(pos, s.len() as int) =~= sigs(Seq::<Ty>::empty()).push(TERMINATOR));
        }
    } else {
        lemma_parse_node_sound(s, pos);
        if let Ok(Some((t, q))) = parse_node(s, pos) {
            lemma_parse_types_sound(s, q);
            if let Ok(ts) = parse_types(s, q) {
                lemma_sigs_cons(t, ts);
                assert(s.subrange(pos, s.len() as int) =~= s.subrange(pos, q) + s.subrange(q, s.len() as int));
                assert(sig(t) + sigs(ts).push(TERMINATOR) =~= (sig(t) + sigs(ts)).push(TERMINATOR));
            }
        }
    }
}

/// Whatever text the parser accepts is the canonical texts of the types it
/// gives, one after the other, ended by at most a terminator.
pub proof fn lemma_parse_sound(s: Seq<char>)
    ensures
        parse_signature(s) matches Ok(ts) ==> s == sigs(ts) || s == sigs(ts).push(TERMINATOR),
{
    if s.len() <= MAX_SIGNATURE_LEN {
        lemma_parse_types_sound(s, 0);
        assert(s.subrange(0, s.len() as int) =~= s);
    }
}

} // verus!
