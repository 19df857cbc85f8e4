//! The payload data model: a small tree of textual values, together with its
//! canonical encoding.
//!
//! Every payload that crosses the engine's boundaries — requests, responses,
//! serialized unit state — is a [`Value`] tree rendered in a canonical,
//! whitespace-free form.  The encoding is defined once, as a spec function
//! over the mathematical model [`ValueModel`], and the executable encoder is
//! proved to produce exactly those bytes.

use vstd::prelude::*;

use crate::codec::{enc_int, esc, is_digit, parse_int, parse_strbody, COMMA, MINUS, QUOTE};

verus! {

/// Left bracket, opening a list.
pub const LBRACKET: u8 = 91;

/// Right bracket, closing a list.
pub const RBRACKET: u8 = 93;

/// Left brace, opening a key/value object.
pub const LBRACE: u8 = 123;

/// Right brace, closing a key/value object.
pub const RBRACE: u8 = 125;

/// Colon, separating a key from its value.
pub const COLON: u8 = 58;

/// Mathematical model of a payload value.
pub enum ValueModel {
    Int(int),
    Bool(bool),
    Str(Seq<u8>),
    Arr(Seq<ValueModel>),
    Obj(Seq<(Seq<u8>, ValueModel)>),
}

/// A payload value: an integer, a boolean, a byte string, an ordered list,
/// or an ordered list of key/value entries.
pub enum Value {
    Int(i64),
    Bool(bool),
    Str(Vec<u8>),
    Arr(Vec<Value>),
    Obj(Vec<(Vec<u8>, Value)>),
}

/// The model of one value.
pub open spec fn value_model(v: Value) -> ValueModel
    decreases v,
{
    match v {
        Value::Int(n) => ValueModel::Int(n as int),
        Value::Bool(b) => ValueModel::Bool(b),
        Value::Str(s) => ValueModel::Str(s@),
        Value::Arr(items) => ValueModel::Arr(items_model(items@)),
        Value::Obj(entries) => ValueModel::Obj(entries_model(entries@)),
    }
}

/// The models of a list of values, in order.
pub open spec fn items_model(items: Seq<Value>) -> Seq<ValueModel>
    decreases items,
{
    if items.len() == 0 {
        Seq::empty()
    } else {
        items_model(items.drop_last()).push(value_model(items.last()))
    }
}

/// The models of a list of key/value entries, in order.
pub open spec fn entries_model(entries: Seq<(Vec<u8>, Value)>) -> Seq<(Seq<u8>, ValueModel)>
    decreases entries,
{
    if entries.len() == 0 {
        Seq::empty()
    } else {
        entries_model(entries.drop_last()).push(
            (entries.last().0@, value_model(entries.last().1)),
        )
    }
}

impl View for Value {
    type V = ValueModel;

    open spec fn view(&self) -> ValueModel {
        value_model(*self)
    }
}

/// Index facts about [`items_model`].
pub proof fn lemma_items_model(items: Seq<Value>)
    ensures
        items_model(items).len() == items.len(),
        forall|i: int| 0 <= i < items.len() ==> items_model(items)[i] == value_model(items[i]),
    decreases items,
{
    if items.len() > 0 {
        lemma_items_model(items.drop_last());
    }
}

/// Index facts about [`entries_model`].
pub proof fn lemma_entries_model(entries: Seq<(Vec<u8>, Value)>)
    ensures
        entries_model(entries).len() == entries.len(),
        forall|i: int| 0 <= i < entries.len() ==> entries_model(entries)[i] == (
            entries[i].0@,
            value_model(entries[i].1),
        ),
    decreases entries,
{
    if entries.len() > 0 {
        lemma_entries_model(entries.drop_last());
    }
}

// ---------------------------------------------------------------------------
// Well-formedness
// ---------------------------------------------------------------------------

/// A model is well formed when every integer in it fits a 64-bit signed word.
pub open spec fn wf_value(m: ValueModel) -> bool
    decreases m,
{
    match m {
        ValueModel::Int(n) => i64::MIN <= n <= i64::MAX,
        ValueModel::Bool(_) => true,
        ValueModel::Str(_) => true,
        ValueModel::Arr(items) => wf_items(items),
        ValueModel::Obj(entries) => wf_entries(entries),
    }
}

/// Well-formedness of a list of models.
pub open spec fn wf_items(items: Seq<ValueModel>) -> bool
    decreases items,
{
    items.len() == 0 || (wf_value(items[0]) && wf_items(items.drop_first()))
}

/// Well-formedness of a list of entries.
pub open spec fn wf_entries(entries: Seq<(Seq<u8>, ValueModel)>) -> bool
    decreases entries,
{
    entries.len() == 0 || (wf_value(entries[0].1) && wf_entries(entries.drop_first()))
}

// ---------------------------------------------------------------------------
// Canonical encoding
// ---------------------------------------------------------------------------

/// The bytes of the literal `true`.
pub open spec fn true_lit() -> Seq<u8> {
    seq![116u8, 114u8, 117u8, 101u8]
}

/// The bytes of the literal `false`.
pub open spec fn false_lit() -> Seq<u8> {
    seq![102u8, 97u8, 108u8, 115u8, 101u8]
}

/// Canonical encoding of one model.
pub open spec fn enc_value(m: ValueModel) -> Seq<u8>
    decreases m,
{
    match m {
        ValueModel::Int(n) => enc_int(n),
        ValueModel::Bool(b) => if b {
            true_lit()
        } else {
            false_lit()
        },
        ValueModel::Str(s) => seq![QUOTE] + esc(s) + seq![QUOTE],
        ValueModel::Arr(items) => seq![LBRACKET] + enc_items(items) + seq![RBRACKET],
        ValueModel::Obj(entries) => seq![LBRACE] + enc_entries(entries) + seq![RBRACE],
    }
}

/// Canonical encoding of a list of models, comma separated.
pub open spec fn enc_items(items: Seq<ValueModel>) -> Seq<u8>
    decreases items,
{
    if items.len() == 0 {
        Seq::empty()
    } else if items.len() == 1 {
        enc_value(items[0])
    } else {
        enc_value(items[0]) + seq![COMMA] + enc_items(items.drop_first())
    }
}

/// Canonical encoding of one key/value entry.
pub open spec fn enc_entry(e: (Seq<u8>, ValueModel)) -> Seq<u8>
    decreases e,
{
    seq![QUOTE] + esc(e.0) + seq![QUOTE, COLON] + enc_value(e.1)
}

/// Canonical encoding of a list of entries, comma separated.
pub open spec fn enc_entries(entries: Seq<(Seq<u8>, ValueModel)>) -> Seq<u8>
    decreases entries,
{
    if entries.len() == 0 {
        Seq::empty()
    } else if entries.len() == 1 {
        enc_entry(entries[0])
    } else {
        enc_entry(entries[0]) + seq![COMMA] + enc_entries(entries.drop_first())
    }
}

// ---------------------------------------------------------------------------
// Parsing
// ---------------------------------------------------------------------------

/// Parse one value at the front of `s`.  `fuel` bounds the recursion depth;
/// [`size_value`] fuel always suffices for canonical input.
pub open spec fn parse_value(s: Seq<u8>, fuel: nat) -> Option<(ValueModel, Seq<u8>)>
    decreases fuel,
{
    if fuel == 0 || s.len() == 0 {
        None
    } else if s[0] == QUOTE {
        match parse_strbody(s.drop_first()) {
            Some((c, r)) => Some((ValueModel::Str(c), r)),
            None => None,
        }
    } else if s[0] == LBRACKET {
        if s.len() >= 2 && s[1] == RBRACKET {
            Some((ValueModel::Arr(Seq::empty()), s.skip(2)))
        } else {
            match parse_items(s.drop_first(), (fuel - 1) as nat) {
                Some((items, r)) => Some((ValueModel::Arr(items), r)),
                None => None,
            }
        }
    } else if s[0] == LBRACE {
        if s.len() >= 2 && s[1] == RBRACE {
            Some((ValueModel::Obj(Seq::empty()), s.skip(2)))
        } else {
            match parse_entries(s.drop_first(), (fuel - 1) as nat) {
                Some((entries, r)) => Some((ValueModel::Obj(entries), r)),
                None => None,
            }
        }
    } else if s[0] == 116 {
        if s.len() >= 4 && s.take(4) == true_lit() {
            Some((ValueModel::Bool(true), s.skip(4)))
        } else {
            None
        }
    } else if s[0] == 102 {
        if s.len() >= 5 && s.take(5) == false_lit() {
            Some((ValueModel::Bool(false), s.skip(5)))
        } else {
            None
        }
    } else {
        match parse_int(s) {
            Some((n, r)) => Some((ValueModel::Int(n), r)),
            None => None,
        }
    }
}

/// Parse one or more comma-separated values and a closing bracket.
pub open spec fn parse_items(s: Seq<u8>, fuel: nat) -> Option<(Seq<ValueModel>, Seq<u8>)>
    decreases fuel,
{
    if fuel == 0 {
        None
    } else {
        match parse_value(s, (fuel - 1) as nat) {
            Some((m, r)) => if r.len() >= 1 && r[0] == COMMA {
                match parse_items(r.drop_first(), (fuel - 1) as nat) {
                    Some((ms, r2)) => Some((seq![m] + ms, r2)),
                    None => None,
                }
            } else if r.len() >= 1 && r[0] == RBRACKET {
                Some((seq![m], r.drop_first()))
            } else {
                None
            },
            None => None,
        }
    }
}

/// Parse one or more comma-separated key/value entries and a closing brace.
pub open spec fn parse_entries(s: Seq<u8>, fuel: nat) -> Option<
    (Seq<(Seq<u8>, ValueModel)>, Seq<u8>),
>
    decreases fuel,
{
    if fuel == 0 || s.len() == 0 || s[0] != QUOTE {
        None
    } else {
        match parse_strbody(s.drop_first()) {
            Some((key, r)) => if r.len() >= 1 && r[0] == COLON {
                match parse_value(r.drop_first(), (fuel - 1) as nat) {
                    Some((m, r2)) => if r2.len() >= 1 && r2[0] == COMMA {
                        match parse_entries(r2.drop_first(), (fuel - 1) as nat) {
                            Some((es, r3)) => Some((seq![(key, m)] + es, r3)),
                            None => None,
                        }
                    } else if r2.len() >= 1 && r2[0] == RBRACE {
                        Some((seq![(key, m)], r2.drop_first()))
                    } else {
                        None
                    },
                    None => None,
                }
            } else {
                None
            },
            None => None,
        }
    }
}

/// Decode a whole payload: parse one value and require that nothing follows.
pub open spec fn dec_value(s: Seq<u8>) -> Option<ValueModel> {
    match parse_value(s, s.len()) {
        Some((m, r)) => if r.len() == 0 {
            Some(m)
        } else {
            None
        },
        None => None,
    }
}

// ---------------------------------------------------------------------------
// Fuel accounting
// ---------------------------------------------------------------------------

/// Fuel needed to parse the canonical encoding of `m`.
pub open spec fn size_value(m: ValueModel) -> int
    decreases m,
{
    match m {
        ValueModel::Arr(items) => 1 + size_items(items),
        ValueModel::Obj(entries) => 1 + size_entries(entries),
        _ => 1,
    }
}

/// Fuel needed to parse an encoded list of models.
pub open spec fn size_items(items: Seq<ValueModel>) -> int
    decreases items,
{
    if items.len() == 0 {
        0
    } else {
        let a = size_value(items[0]);
        let b = size_items(items.drop_first());
        1 + if a >= b {
            a
        } else {
            b
        }
    }
}

/// Fuel needed to parse an encoded list of entries.
pub open spec fn size_entries(entries: Seq<(Seq<u8>, ValueModel)>) -> int
    decreases entries,
{
    if entries.len() == 0 {
        0
    } else {
        let a = size_value(entries[0].1);
        let b = size_entries(entries.drop_first());
        1 + if a >= b {
            a
        } else {
            b
        }
    }
}

/// The canonical encoding is at least as long as the fuel its parse needs.
pub proof fn lemma_size_le_len(m: ValueModel)
    ensures
        1 <= size_value(m) <= enc_value(m).len(),
    decreases m,
{
    match m {
        ValueModel::Int(n) => {
            assert(enc_value(m).len() >= 1) by {
                if n >= 0 {
                    crate::codec::lemma_enc_nat_len_pos(n);
                } else {
                    crate::codec::lemma_enc_nat_len_pos(-n);
                }
            }
        },
        ValueModel::Bool(_) => {},
        ValueModel::Str(_) => {},
        ValueModel::Arr(items) => {
            lemma_size_items_le_len(items);
        },
        ValueModel::Obj(entries) => {
            lemma_size_entries_le_len(entries);
        },
    }
}

/// List form of [`lemma_size_le_len`].
pub proof fn lemma_size_items_le_len(items: Seq<ValueModel>)
    ensures
        0 <= size_items(items) <= enc_items(items).len() + 1,
    decreases items,
{
    if items.len() > 0 {
        lemma_size_le_len(items[0]);
        lemma_size_items_le_len(items.drop_first());
        if items.len() == 1 {
        } else {
            assert(enc_items(items).len() == enc_value(items[0]).len() + 1 + enc_items(
                items.drop_first(),
            ).len());
        }
    }
}

/// Entry form of [`lemma_size_le_len`].
pub proof fn lemma_size_entries_le_len(entries: Seq<(Seq<u8>, ValueModel)>)
    ensures
        0 <= size_entries(entries) <= enc_entries(entries).len() + 1,
    decreases entries,
{
    if entries.len() > 0 {
        lemma_size_le_len(entries[0].1);
        lemma_size_entries_le_len(entries.drop_first());
        assert(enc_entry(entries[0]).len() >= 3 + enc_value(entries[0].1).len());
        if entries.len() == 1 {
        } else {
            assert(enc_entries(entries).len() == enc_entry(entries[0]).len() + 1 + enc_entries(
                entries.drop_first(),
            ).len());
        }
    }
}

// ---------------------------------------------------------------------------
// Round trip: parsing inverts encoding
// ---------------------------------------------------------------------------

/// The first byte of any canonical encoding is a value opener, never a
/// closing bracket, closing brace, or comma.
pub proof fn lemma_enc_value_first(m: ValueModel)
    ensures
        enc_value(m).len() >= 1,
        enc_value(m)[0] != RBRACKET,
        enc_value(m)[0] != RBRACE,
        enc_value(m)[0] != COMMA,
{
    match m {
        ValueModel::Int(n) => {
            if n >= 0 {
                crate::codec::lemma_enc_nat_form(n);
            } else {
                crate::codec::lemma_enc_nat_len_pos(-n);
                assert(enc_value(m)[0] == MINUS);
            }
        },
        ValueModel::Bool(_) => {},
        ValueModel::Str(_) => {},
        ValueModel::Arr(_) => {},
        ValueModel::Obj(_) => {},
    }
}

/// Parsing inverts the canonical encoding of one value, for any remainder
/// that does not begin with a digit and any sufficient fuel.
pub proof fn lemma_rt_value(m: ValueModel, rest: Seq<u8>, fuel: nat)
    requires
        wf_value(m),
        fuel >= size_value(m),
        rest.len() == 0 || !is_digit(rest[0]),
    ensures
        parse_value(enc_value(m) + rest, fuel) == Some((m, rest)),
    decreases m,
{
    let s = enc_value(m) + rest;
    lemma_enc_value_first(m);
    lemma_size_le_len(m);
    assert(s[0] == enc_value(m)[0]);
    match m {
        ValueModel::Int(n) => {
            crate::codec::lemma_parse_int_rt(n, rest);
            if n >= 0 {
                crate::codec::lemma_enc_nat_form(n);
                assert(is_digit(s[0]));
            } else {
                assert(s[0] == MINUS);
            }
            assert(s.len() >= 1);
            assert(s[0] != QUOTE && s[0] != LBRACKET && s[0] != LBRACE && s[0] != 116 && s[0]
                != 102);
        },
        ValueModel::Bool(b) => {
            if b {
                assert(s.take(4) =~= true_lit());
                assert(s.skip(4) =~= rest);
                assert(s[0] == 116);
            } else {
                assert(s.take(5) =~= false_lit());
                assert(s.skip(5) =~= rest);
                assert(s[0] == 102);
            }
        },
        ValueModel::Str(c) => {
            assert(s =~= seq![QUOTE] + (esc(c) + seq![QUOTE] + rest));
            assert(s.drop_first() =~= esc(c) + seq![QUOTE] + rest);
            crate::codec::lemma_parse_strbody_rt(c, rest);
        },
        ValueModel::Arr(items) => {
            if items.len() == 0 {
                assert(enc_items(items).len() == 0);
                assert(s =~= seq![LBRACKET, RBRACKET] + rest);
                assert(s[1] == RBRACKET);
                assert(s.skip(2) =~= rest);
                assert(Seq::<ValueModel>::empty() =~= items);
                assert(ValueModel::Arr(Seq::empty()) == m);
            } else {
                let inner = enc_items(items) + seq![RBRACKET] + rest;
                assert(s =~= seq![LBRACKET] + inner);
                assert(s.drop_first() =~= inner);
                lemma_enc_items_first(items);
                lemma_size_items_le_len(items);
                assert(s[1] == enc_items(items)[0]);
                assert(s[1] != RBRACKET);
                lemma_rt_items(items, rest, (fuel - 1) as nat);
            }
        },
        ValueModel::Obj(entries) => {
            if entries.len() == 0 {
                assert(enc_entries(entries).len() == 0);
                assert(s =~= seq![LBRACE, RBRACE] + rest);
                assert(s[1] == RBRACE);
                assert(s.skip(2) =~= rest);
                assert(Seq::<(Seq<u8>, ValueModel)>::empty() =~= entries);
                assert(ValueModel::Obj(Seq::empty()) == m);
            } else {
                let inner = enc_entries(entries) + seq![RBRACE] + rest;
                assert(s =~= seq![LBRACE] + inner);
                assert(s.drop_first() =~= inner);
                lemma_size_entries_le_len(entries);
                assert(enc_entry(entries[0])[0] == QUOTE);
                assert(enc_entry(entries[0]).len() >= 3);
                if entries.len() == 1 {
                    assert(enc_entries(entries) == enc_entry(entries[0]));
                } else {
                    assert(enc_entries(entries)[0] == enc_entry(entries[0])[0]);
                }
                assert(enc_entries(entries)[0] == QUOTE);
                assert(s[1] == QUOTE);
                assert(s[1] != RBRACE);
                lemma_rt_entries(entries, rest, (fuel - 1) as nat);
            }
        },
    }
}

/// The first byte of an encoded, non-empty list is the first byte of its
/// first element's encoding.
pub proof fn lemma_enc_items_first(items: Seq<ValueModel>)
    requires
        items.len() >= 1,
    ensures
        enc_items(items).len() >= 1,
        enc_items(items)[0] == enc_value(items[0])[0],
        enc_items(items)[0] != RBRACKET,
{
    lemma_enc_value_first(items[0]);
}

/// Parsing inverts the canonical encoding of a non-empty list followed by a
/// closing bracket.
pub proof fn lemma_rt_items(items: Seq<ValueModel>, rest: Seq<u8>, fuel: nat)
    requires
        wf_items(items),
        items.len() >= 1,
        fuel >= size_items(items),
    ensures
        parse_items(enc_items(items) + seq![RBRACKET] + rest, fuel) == Some((items, rest)),
    decreases items,
{
    let s = enc_items(items) + seq![RBRACKET] + rest;
    let m0 = items[0];
    lemma_size_le_len(m0);
    lemma_size_items_le_len(items.drop_first());
    if items.len() == 1 {
        let after = seq![RBRACKET] + rest;
        assert(s =~= enc_value(m0) + after);
        lemma_rt_value(m0, after, (fuel - 1) as nat);
        assert(after[0] == RBRACKET);
        assert(after.drop_first() =~= rest);
        assert(seq![m0] =~= items);
    } else {
        let tail = items.drop_first();
        let mid = seq![COMMA] + enc_items(tail) + seq![RBRACKET] + rest;
        assert(s =~= enc_value(m0) + mid);
        lemma_rt_value(m0, mid, (fuel - 1) as nat);
        assert(mid[0] == COMMA);
        assert(mid.drop_first() =~= enc_items(tail) + seq![RBRACKET] + rest);
        lemma_rt_items(tail, rest, (fuel - 1) as nat);
        assert(seq![m0] + tail =~= items);
    }
}

/// Parsing inverts the canonical encoding of a non-empty entry list followed
/// by a closing brace.
pub proof fn lemma_rt_entries(entries: Seq<(Seq<u8>, ValueModel)>, rest: Seq<u8>, fuel: nat)
    requires
        wf_entries(entries),
        entries.len() >= 1,
        fuel >= size_entries(entries),
    ensures
        parse_entries(enc_entries(entries) + seq![RBRACE] + rest, fuel) == Some((entries, rest)),
    decreases entries,
{
    let s = enc_entries(entries) + seq![RBRACE] + rest;
    let e0 = entries[0];
    lemma_size_le_len(e0.1);
    lemma_size_entries_le_len(entries.drop_first());
    let after_entry: Seq<u8> = if entries.len() == 1 {
        seq![RBRACE] + rest
    } else {
        seq![COMMA] + enc_entries(entries.drop_first()) + seq![RBRACE] + rest
    };
    assert(s =~= enc_entry(e0) + after_entry);
    assert(s =~= seq![QUOTE] + (esc(e0.0) + seq![QUOTE] + (seq![COLON] + enc_value(e0.1)
        + after_entry)));
    assert(s[0] == QUOTE);
    assert(s.drop_first() =~= esc(e0.0) + seq![QUOTE] + (seq![COLON] + enc_value(e0.1)
        + after_entry));
    crate::codec::lemma_parse_strbody_rt(e0.0, seq![COLON] + enc_value(e0.1) + after_entry);
    let r = seq![COLON] + enc_value(e0.1) + after_entry;
    assert(r[0] == COLON);
    assert(r.drop_first() =~= enc_value(e0.1) + after_entry);
    assert(after_entry[0] == RBRACE || after_entry[0] == COMMA);
    lemma_rt_value(e0.1, after_entry, (fuel - 1) as nat);
    if entries.len() == 1 {
        assert(after_entry[0] == RBRACE);
        assert(after_entry.drop_first() =~= rest);
        assert(seq![(e0.0, e0.1)] =~= entries);
    } else {
        let tail = entries.drop_first();
        assert(after_entry[0] == COMMA);
        assert(after_entry.drop_first() =~= enc_entries(tail) + seq![RBRACE] + rest);
        lemma_rt_entries(tail, rest, (fuel - 1) as nat);
        assert(seq![(e0.0, e0.1)] + tail =~= entries);
    }
}

/// Decoding inverts encoding: every well-formed model comes back unchanged.
pub proof fn lemma_dec_enc(m: ValueModel)
    requires
        wf_value(m),
    ensures
        dec_value(enc_value(m)) == Some(m),
{
    lemma_size_le_len(m);
    lemma_rt_value(m, Seq::empty(), enc_value(m).len());
    assert(enc_value(m) + Seq::<u8>::empty() =~= enc_value(m));
}

// ---------------------------------------------------------------------------
// Executable encoder
// ---------------------------------------------------------------------------

/// Front decomposition of [`items_model`].
pub proof fn lemma_items_model_first(s: Seq<Value>)
    requires
        s.len() >= 1,
    ensures
        items_model(s) == seq![value_model(s[0])] + items_model(s.drop_first()),
{
    lemma_items_model(s);
    lemma_items_model(s.drop_first());
    assert(items_model(s) =~= seq![value_model(s[0])] + items_model(s.drop_first()));
}

/// Front decomposition of [`entries_model`].
pub proof fn lemma_entries_model_first(s: Seq<(Vec<u8>, Value)>)
    requires
        s.len() >= 1,
    ensures
        entries_model(s) == seq![(s[0].0@, value_model(s[0].1))] + entries_model(s.drop_first()),
{
    lemma_entries_model(s);
    lemma_entries_model(s.drop_first());
    assert(entries_model(s) =~= seq![(s[0].0@, value_model(s[0].1))] + entries_model(
        s.drop_first(),
    ));
}

/// Append the canonical encoding of `v` to `out`.
pub fn push_value(out: &mut Vec<u8>, v: &Value)
    ensures
        final(out)@ == old(out)@ + enc_value(v@),
    decreases v, 0int,
{
    match v {
        Value::Int(n) => {
            crate::codec::push_int(out, *n);
        },
        Value::Bool(b) => {
            if *b {
                out.push(116);
                out.push(114);
                out.push(117);
                out.push(101);
                assert(out@ =~= old(out)@ + true_lit());
            } else {
                out.push(102);
                out.push(97);
                out.push(108);
                out.push(115);
                out.push(101);
                assert(out@ =~= old(out)@ + false_lit());
            }
        },
        Value::Str(s) => {
            crate::codec::push_string(out, s);
            assert(out@ =~= old(out)@ + enc_value(v@));
        },
        Value::Arr(items) => {
            out.push(LBRACKET);
            push_items(out, items, 0);
            out.push(RBRACKET);
            proof {
                assert(items@.skip(0) =~= items@);
                assert(out@ =~= old(out)@ + enc_value(v@));
            }
        },
        Value::Obj(entries) => {
            out.push(LBRACE);
            push_entries(out, entries, 0);
            out.push(RBRACE);
            proof {
                assert(entries@.skip(0) =~= entries@);
                assert(out@ =~= old(out)@ + enc_value(v@));
            }
        },
    }
}

/// Append the encodings of `items[idx..]`, comma separated, to `out`.
fn push_items(out: &mut Vec<u8>, items: &Vec<Value>, idx: usize)
    requires
        idx <= items@.len(),
    ensures
        final(out)@ == old(out)@ + enc_items(items_model(items@.skip(idx as int))),
    decreases items, items@.len() - idx,
{
    proof {
        lemma_items_model(items@.skip(idx as int));
    }
    if idx == items.len() {
        assert(items_model(items@.skip(idx as int)) =~= Seq::<ValueModel>::empty());
        assert(out@ =~= old(out)@ + enc_items(items_model(items@.skip(idx as int))));
    } else {
        let ghost tail_model = items_model(items@.skip(idx as int));
        proof {
            lemma_items_model_first(items@.skip(idx as int));
            assert(items@.skip(idx as int)[0] == items@[idx as int]);
            assert(items@.skip(idx as int).drop_first() =~= items@.skip(idx + 1));
        }
        push_value(out, &items[idx]);
        if idx + 1 == items.len() {
            proof {
                assert(items@.skip(idx + 1).len() == 0);
                assert(items_model(items@.skip(idx + 1)) =~= Seq::<ValueModel>::empty());
                assert(tail_model =~= seq![value_model(items@[idx as int])]);
                assert(enc_items(tail_model) == enc_value(tail_model[0]));
                assert(out@ =~= old(out)@ + enc_items(tail_model));
            }
        } else {
            out.push(COMMA);
            push_items(out, items, idx + 1);
            proof {
                lemma_items_model(items@.skip(idx + 1));
                assert(tail_model.len() >= 2);
                assert(tail_model[0] == value_model(items@[idx as int]));
                assert(tail_model.drop_first() =~= items_model(items@.skip(idx + 1)));
                assert(enc_items(tail_model) == enc_value(tail_model[0]) + seq![COMMA]
                    + enc_items(tail_model.drop_first()));
                assert(out@ =~= old(out)@ + enc_items(tail_model));
            }
        }
    }
}

/// Append the encodings of `entries[idx..]`, comma separated, to `out`.
fn push_entries(out: &mut Vec<u8>, entries: &Vec<(Vec<u8>, Value)>, idx: usize)
    requires
        idx <= entries@.len(),
    ensures
        final(out)@ == old(out)@ + enc_entries(entries_model(entries@.skip(idx as int))),
    decreases entries, entries@.len() - idx,
{
    proof {
        lemma_entries_model(entries@.skip(idx as int));
    }
    if idx == entries.len() {
        assert(entries_model(entries@.skip(idx as int)) =~= Seq::<(Seq<u8>, ValueModel)>::empty());
        assert(out@ =~= old(out)@ + enc_entries(entries_model(entries@.skip(idx as int))));
    } else {
        let ghost tail_model = entries_model(entries@.skip(idx as int));
        proof {
            lemma_entries_model_first(entries@.skip(idx as int));
            assert(entries@.skip(idx as int)[0] == entries@[idx as int]);
            assert(entries@.skip(idx as int).drop_first() =~= entries@.skip(idx + 1));
        }
        let e = &entries[idx];
        crate::codec::push_string(out, &e.0);
        out.push(COLON);
        push_value(out, &e.1);
        proof {
            assert(tail_model[0] == (entries@[idx as int].0@, value_model(entries@[idx as int].1)));
            assert(enc_entry(tail_model[0]) == seq![QUOTE] + esc(entries@[idx as int].0@) + seq![
                QUOTE,
                COLON,
            ] + enc_value(value_model(entries@[idx as int].1)));
        }
        if idx + 1 == entries.len() {
            proof {
                assert(entries@.skip(idx + 1).len() == 0);
                assert(entries_model(entries@.skip(idx + 1)) =~= Seq::<
                    (Seq<u8>, ValueModel),
                >::empty());
                assert(tail_model =~= seq![
                    (entries@[idx as int].0@, value_model(entries@[idx as int].1)),
                ]);
                assert(enc_entries(tail_model) == enc_entry(tail_model[0]));
                assert(out@ =~= old(out)@ + enc_entries(tail_model));
            }
        } else {
            out.push(COMMA);
            push_entries(out, entries, idx + 1);
            proof {
                lemma_entries_model(entries@.skip(idx + 1));
                assert(tail_model.len() >= 2);
                assert(tail_model.drop_first() =~= entries_model(entries@.skip(idx + 1)));
                assert(enc_entries(tail_model) == enc_entry(tail_model[0]) + seq![COMMA]
                    + enc_entries(tail_model.drop_first()));
                assert(out@ =~= old(out)@ + enc_entries(tail_model));
            }
        }
    }
}

/// Encode `v` canonically.
pub fn encode_value(v: &Value) -> (r: Vec<u8>)
    ensures
        r@ == enc_value(v@),
{
    let mut out: Vec<u8> = Vec::new();
    push_value(&mut out, v);
    proof {
        assert(out@ =~= enc_value(v@));
    }
    out
}

// ---------------------------------------------------------------------------
// Executable parser
// ---------------------------------------------------------------------------

/// Parse one value at position `i`, per [`parse_value`].
pub fn parse_value_at(v: &Vec<u8>, i: usize, fuel: usize) -> (r: Option<(Value, usize)>)
    requires
        i <= v.len(),
    ensures
        match r {
            Some(p) => i <= p.1 <= v.len() && parse_value(v@.skip(i as int), fuel as nat) == Some(
                (p.0@, v@.skip(p.1 as int)),
            ),
            None => parse_value(v@.skip(i as int), fuel as nat) is None,
        },
    decreases fuel,
{
    let ghost s = v@.skip(i as int);
    if fuel == 0 || i >= v.len() {
        return None;
    }
    let b = v[i];
    proof {
        assert(s[0] == b);
    }
    if b == QUOTE {
        proof {
            assert(s.drop_first() =~= v@.skip(i + 1));
        }
        match crate::codec::parse_strbody_at(v, i + 1) {
            Some((c, j)) => Some((Value::Str(c), j)),
            None => None,
        }
    } else if b == LBRACKET {
        if i + 1 < v.len() && v[i + 1] == RBRACKET {
            proof {
                assert(s.len() >= 2 && s[1] == RBRACKET);
                assert(s.skip(2) =~= v@.skip(i + 2));
                assert(items_model(Seq::<Value>::empty()) =~= Seq::<ValueModel>::empty());
            }
            Some((Value::Arr(Vec::new()), i + 2))
        } else {
            proof {
                assert(s.len() >= 2 ==> s[1] == v@[i + 1]);
                assert(s.drop_first() =~= v@.skip(i + 1));
            }
            match parse_items_at(v, i + 1, fuel - 1) {
                Some((items, j)) => Some((Value::Arr(items), j)),
                None => None,
            }
        }
    } else if b == LBRACE {
        if i + 1 < v.len() && v[i + 1] == RBRACE {
            proof {
                assert(s.len() >= 2 && s[1] == RBRACE);
                assert(s.skip(2) =~= v@.skip(i + 2));
                assert(entries_model(Seq::<(Vec<u8>, Value)>::empty()) =~= Seq::<
                    (Seq<u8>, ValueModel),
                >::empty());
            }
            Some((Value::Obj(Vec::new()), i + 2))
        } else {
            proof {
                assert(s.len() >= 2 ==> s[1] == v@[i + 1]);
                assert(s.drop_first() =~= v@.skip(i + 1));
            }
            match parse_entries_at(v, i + 1, fuel - 1) {
                Some((entries, j)) => Some((Value::Obj(entries), j)),
                None => None,
            }
        }
    } else if b == 116 {
        if v.len() - i >= 4 && v[i + 1] == 114 && v[i + 2] == 117 && v[i + 3] == 101 {
            proof {
                assert(s.take(4) =~= true_lit());
                assert(s.skip(4) =~= v@.skip(i + 4));
            }
            Some((Value::Bool(true), i + 4))
        } else {
            proof {
                if s.len() >= 4 {
                    assert(s.take(4)[1] == v@[i + 1] && s.take(4)[2] == v@[i + 2] && s.take(4)[3]
                        == v@[i + 3]);
                    assert(s.take(4) != true_lit());
                }
            }
            None
        }
    } else if b == 102 {
        if v.len() - i >= 5 && v[i + 1] == 97 && v[i + 2] == 108 && v[i + 3] == 115 && v[i + 4]
            == 101 {
            proof {
                assert(s.take(5) =~= false_lit());
                assert(s.skip(5) =~= v@.skip(i + 5));
            }
            Some((Value::Bool(false), i + 5))
        } else {
            proof {
                if s.len() >= 5 {
                    assert(s.take(5)[1] == v@[i + 1] && s.take(5)[2] == v@[i + 2] && s.take(5)[3]
                        == v@[i + 3] && s.take(5)[4] == v@[i + 4]);
                    assert(s.take(5) != false_lit());
                }
            }
            None
        }
    } else {
        match crate::codec::parse_int_at(v, i) {
            Some((n, j)) => Some((Value::Int(n), j)),
            None => None,
        }
    }
}

/// Parse a comma-separated list of values and its closing bracket, per
/// [`parse_items`].
fn parse_items_at(v: &Vec<u8>, i: usize, fuel: usize) -> (r: Option<(Vec<Value>, usize)>)
    requires
        i <= v.len(),
    ensures
        match r {
            Some(p) => i <= p.1 <= v.len() && parse_items(v@.skip(i as int), fuel as nat) == Some(
                (items_model(p.0@), v@.skip(p.1 as int)),
            ),
            None => parse_items(v@.skip(i as int), fuel as nat) is None,
        },
    decreases fuel,
{
    if fuel == 0 {
        return None;
    }
    match parse_value_at(v, i, fuel - 1) {
        Some((val, j)) => {
            if j < v.len() && v[j] == COMMA {
                proof {
                    assert(v@.skip(j as int)[0] == COMMA);
                    assert(v@.skip(j as int).drop_first() =~= v@.skip(j + 1));
                }
                match parse_items_at(v, j + 1, fuel - 1) {
                    Some((mut items, j2)) => {
                        proof {
                            assert(items@.insert(0, val) =~= seq![val] + items@);
                        }
                        let ghost old_items = items@;
                        items.insert(0, val);
                        proof {
                            lemma_items_model_first(items@);
                            assert(items@[0] == val);
                            assert(items@.drop_first() =~= old_items);
                            assert(items_model(items@) =~= seq![value_model(val)] + items_model(
                                old_items,
                            ));
                        }
                        Some((items, j2))
                    },
                    None => None,
                }
            } else if j < v.len() && v[j] == RBRACKET {
                proof {
                    assert(v@.skip(j as int)[0] == RBRACKET);
                    assert(v@.skip(j as int).drop_first() =~= v@.skip(j + 1));
                }
                let mut one: Vec<Value> = Vec::new();
                one.push(val);
                proof {
                    lemma_items_model_first(one@);
                    assert(one@.drop_first().len() == 0);
                    assert(items_model(one@.drop_first()) =~= Seq::<ValueModel>::empty());
                    assert(items_model(one@) =~= seq![value_model(val)]);
                }
                Some((one, j + 1))
            } else {
                proof {
                    if j < v.len() {
                        assert(v@.skip(j as int)[0] == v@[j as int]);
                    }
                }
                None
            }
        },
        None => None,
    }
}

/// Parse a comma-separated list of key/value entries and its closing brace,
/// per [`parse_entries`].
fn parse_entries_at(v: &Vec<u8>, i: usize, fuel: usize) -> (r: Option<(Vec<(Vec<u8>, Value)>, usize)>)
    requires
        i <= v.len(),
    ensures
        match r {
            Some(p) => i <= p.1 <= v.len() && parse_entries(v@.skip(i as int), fuel as nat)
                == Some((entries_model(p.0@), v@.skip(p.1 as int))),
            None => parse_entries(v@.skip(i as int), fuel as nat) is None,
        },
    decreases fuel,
{
    let ghost s = v@.skip(i as int);
    if fuel == 0 || i >= v.len() {
        return None;
    }
    let b = v[i];
    proof {
        assert(s[0] == b);
    }
    if b != QUOTE {
        return None;
    }
    proof {
        assert(s.drop_first() =~= v@.skip(i + 1));
    }
    match crate::codec::parse_strbody_at(v, i + 1) {
        Some((key, j)) => {
            if j < v.len() && v[j] == COLON {
                proof {
                    assert(v@.skip(j as int)[0] == COLON);
                    assert(v@.skip(j as int).drop_first() =~= v@.skip(j + 1));
                }
                match parse_value_at(v, j + 1, fuel - 1) {
                    Some((val, j2)) => {
                        if j2 < v.len() && v[j2] == COMMA {
                            proof {
                                assert(v@.skip(j2 as int)[0] == COMMA);
                                assert(v@.skip(j2 as int).drop_first() =~= v@.skip(j2 + 1));
                            }
                            match parse_entries_at(v, j2 + 1, fuel - 1) {
                                Some((mut entries, j3)) => {
                                    proof {
                                        assert(entries@.insert(0, (key, val)) =~= seq![(key, val)]
                                            + entries@);
                                    }
                                    let ghost old_entries = entries@;
                                    entries.insert(0, (key, val));
                                    proof {
                                        lemma_entries_model_first(entries@);
                                        assert(entries@[0] == (key, val));
                                        assert(entries@.drop_first() =~= old_entries);
                                        assert(entries_model(entries@) =~= seq![
                                            (key@, value_model(val)),
                                        ] + entries_model(old_entries));
                                    }
                                    Some((entries, j3))
                                },
                                None => None,
                            }
                        } else if j2 < v.len() && v[j2] == RBRACE {
                            proof {
                                assert(v@.skip(j2 as int)[0] == RBRACE);
                                assert(v@.skip(j2 as int).drop_first() =~= v@.skip(j2 + 1));
                            }
                            let mut one: Vec<(Vec<u8>, Value)> = Vec::new();
                            one.push((key, val));
                            proof {
                                lemma_entries_model_first(one@);
                                assert(one@.drop_first().len() == 0);
                                assert(entries_model(one@.drop_first()) =~= Seq::<
                                    (Seq<u8>, ValueModel),
                                >::empty());
                                assert(entries_model(one@) =~= seq![(key@, value_model(val))]);
                            }
                            Some((one, j2 + 1))
                        } else {
                            proof {
                                if j2 < v.len() {
                                    assert(v@.skip(j2 as int)[0] == v@[j2 as int]);
                                }
                            }
                            None
                        }
                    },
                    None => None,
                }
            } else {
                proof {
                    if j < v.len() {
                        assert(v@.skip(j as int)[0] == v@[j as int]);
                    }
                }
                None
            }
        },
        None => None,
    }
}

/// Decode a whole canonical payload, per [`dec_value`].
pub fn decode_value(v: &Vec<u8>) -> (r: Option<Value>)
    ensures
        match r {
            Some(val) => dec_value(v@) == Some(val@),
            None => dec_value(v@) is None,
        },
{
    proof {
        assert(v@.skip(0) =~= v@);
    }
    match parse_value_at(v, 0, v.len()) {
        Some((val, j)) => {
            if j == v.len() {
                proof {
                    assert(v@.skip(j as int).len() == 0);
                }
                Some(val)
            } else {
                proof {
                    assert(v@.skip(j as int).len() > 0);
                }
                None
            }
        },
        None => None,
    }
}

} // verus!
