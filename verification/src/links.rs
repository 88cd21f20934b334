//! The reference-validity law: every `Link` and `Symlink` anywhere in a
//! successfully decoded graph — in the root value and in every object-cache
//! slot — names an existing slot of its cache.  Back-references are
//! bounds-checked against the cache length at the moment they are read, and
//! both caches only ever grow, so the indices stay valid in the finished
//! graph; this is what makes shared and cyclic substructure resolvable.

use vstd::prelude::*;

use crate::model::{
    sd_array, sd_color, sd_elems, sd_float, sd_hash, sd_ivar_wrap, sd_ivars, sd_len_bytes,
    sd_meta, sd_object, sd_pairs, sd_string, sd_sym_new, sd_symbol, sd_table, sd_tone, sd_user,
    sd_value, spec_find_key, spec_hash_insert, SpecState,
};
use crate::reader::spec_decode;
use crate::value::SpecValue;

verus! {

broadcast use vstd::seq::axiom_seq_index_decreases;

/// Every back-reference in `v` lies below `no` (object slots) and `ns`
/// (symbol slots) respectively.
pub open spec fn links_ok(v: SpecValue, no: int, ns: int) -> bool
    decreases v,
{
    match v {
        SpecValue::Link(i) => (i as int) < no,
        SpecValue::Symlink(i) => (i as int) < ns,
        SpecValue::Array(elems) => forall|i: int|
            0 <= i < elems.len() ==> links_ok(#[trigger] elems[i], no, ns),
        SpecValue::Hash(pairs) => forall|i: int|
            0 <= i < pairs.len() ==> links_ok(#[trigger] pairs[i].1, no, ns),
        SpecValue::Object { ivars, .. } => forall|i: int|
            0 <= i < ivars.len() ==> links_ok(#[trigger] ivars[i].1, no, ns),
        _ => true,
    }
}

/// Every value cached so far has its back-references below the current
/// cache lengths.
pub open spec fn st_ok(st: SpecState) -> bool {
    forall|i: int|
        0 <= i < st.objs.len() ==> links_ok(
            #[trigger] st.objs[i],
            st.objs.len() as int,
            st.syms.len() as int,
        )
}

/// Widening the bounds preserves `links_ok`.
proof fn lemma_links_ok_mono(v: SpecValue, no: int, ns: int, no2: int, ns2: int)
    requires
        links_ok(v, no, ns),
        no <= no2,
        ns <= ns2,
    ensures
        links_ok(v, no2, ns2),
    decreases v,
{
    match v {
        SpecValue::Array(elems) => {
            assert forall|i: int| 0 <= i < elems.len() implies links_ok(
                #[trigger] elems[i],
                no2,
                ns2,
            ) by {
                lemma_links_ok_mono(elems[i], no, ns, no2, ns2);
            }
        },
        SpecValue::Hash(pairs) => {
            assert forall|i: int| 0 <= i < pairs.len() implies links_ok(
                #[trigger] pairs[i].1,
                no2,
                ns2,
            ) by {
                lemma_links_ok_mono(pairs[i].1, no, ns, no2, ns2);
            }
        },
        SpecValue::Object { ivars, .. } => {
            assert forall|i: int| 0 <= i < ivars.len() implies links_ok(
                #[trigger] ivars[i].1,
                no2,
                ns2,
            ) by {
                lemma_links_ok_mono(ivars[i].1, no, ns, no2, ns2);
            }
        },
        _ => {},
    }
}

/// Appending a link-valid value to the object cache keeps every cached
/// value link-valid, whatever else changed.
proof fn lemma_st_ok_push(st: SpecState, v: SpecValue, st2: SpecState)
    requires
        st_ok(st),
        links_ok(v, st.objs.len() as int + 1, st.syms.len() as int),
        st2.objs == st.objs.push(v),
        st2.syms == st.syms,
    ensures
        st_ok(st2),
{
    assert forall|i: int| 0 <= i < st2.objs.len() implies links_ok(
        #[trigger] st2.objs[i],
        st2.objs.len() as int,
        st2.syms.len() as int,
    ) by {
        if i < st.objs.len() {
            assert(st2.objs[i] == st.objs[i]);
            lemma_links_ok_mono(
                st.objs[i],
                st.objs.len() as int,
                st.syms.len() as int,
                st2.objs.len() as int,
                st2.syms.len() as int,
            );
        } else {
            assert(st2.objs[i] == v);
        }
    }
}

/// Growing the symbol cache keeps every cached value link-valid.
proof fn lemma_st_ok_sym_push(st: SpecState, b: Seq<u8>, st2: SpecState)
    requires
        st_ok(st),
        st2.objs == st.objs,
        st2.syms == st.syms.push(b),
    ensures
        st_ok(st2),
{
    assert forall|i: int| 0 <= i < st2.objs.len() implies links_ok(
        #[trigger] st2.objs[i],
        st2.objs.len() as int,
        st2.syms.len() as int,
    ) by {
        lemma_links_ok_mono(
            st.objs[i],
            st.objs.len() as int,
            st.syms.len() as int,
            st2.objs.len() as int,
            st2.syms.len() as int,
        );
    }
}

/// Filling a reserved slot with a link-valid value keeps every cached
/// value link-valid, whatever else changed.
proof fn lemma_st_ok_update(st: SpecState, slot: int, v: SpecValue, st2: SpecState)
    requires
        st_ok(st),
        0 <= slot < st.objs.len(),
        links_ok(v, st.objs.len() as int, st.syms.len() as int),
        st2.objs == st.objs.update(slot, v),
        st2.syms == st.syms,
    ensures
        st_ok(st2),
{
    assert forall|i: int| 0 <= i < st2.objs.len() implies links_ok(
        #[trigger] st2.objs[i],
        st2.objs.len() as int,
        st2.syms.len() as int,
    ) by {
        if i != slot {
            assert(st2.objs[i] == st.objs[i]);
        }
    }
}

/// A name-position symbol preserves the cache invariant and grows the
/// caches at most.
proof fn lemma_sd_symbol_links(input: Seq<u8>, st: SpecState)
    requires
        st_ok(st),
    ensures
        match sd_symbol(input, st) {
            Ok(r) => st_ok(r.1) && st.objs.len() == r.1.objs.len() && st.syms.len()
                <= r.1.syms.len(),
            Err(_) => true,
        },
{
    if st.pos + 1 <= input.len() {
        let st1 = SpecState { pos: st.pos + 1, ..st };
        match sd_len_bytes(input, st1.pos) {
            Ok((bytes, p)) => {
                match sd_sym_new(input, st1) {
                    Ok((_b, stn)) => {
                        lemma_st_ok_sym_push(st1, bytes, stn);
                    },
                    Err(_) => {},
                }
            },
            Err(_) => {},
        }
    }
}

/// A record or byte payload registered whole preserves the invariant: the
/// pushed value holds no back-references.
proof fn lemma_push_linkless(st: SpecState, v: SpecValue, st2: SpecState)
    requires
        st_ok(st),
        !(v is Link),
        !(v is Symlink),
        !(v is Array),
        !(v is Hash),
        !(v is Object),
        st2.objs == st.objs.push(v),
        st2.syms == st.syms,
    ensures
        st_ok(st2),
{
    lemma_st_ok_push(st, v, st2);
}

/// The user-defined record branch preserves the invariant; each record it
/// can produce holds no back-references.
proof fn lemma_sd_user_links(input: Seq<u8>, st: SpecState, tag_pos: int)
    requires
        st_ok(st),
    ensures
        match sd_user(input, st, tag_pos) {
            Ok(r) => st_ok(r.1) && links_ok(r.0, r.1.objs.len() as int, r.1.syms.len() as int)
                && st.objs.len() <= r.1.objs.len() && st.syms.len() <= r.1.syms.len(),
            Err(_) => true,
        },
{
    lemma_sd_symbol_links(input, st);
    match sd_symbol(input, st) {
        Ok((name, st1)) => {
            match crate::varint::spec_decode_fixnum(input, st1.pos) {
                Ok((_paylen, p2)) => {
                    let st2 = SpecState { pos: p2, ..st1 };
                    assert(st_ok(st2));
                    match sd_color(input, st2) {
                        Ok(r) => {
                            lemma_push_linkless(st2, r.0, r.1);
                        },
                        Err(_) => {},
                    }
                    match sd_tone(input, st2) {
                        Ok(r) => {
                            lemma_push_linkless(st2, r.0, r.1);
                        },
                        Err(_) => {},
                    }
                    match sd_table(input, st2) {
                        Ok(r) => {
                            lemma_push_linkless(st2, r.0, r.1);
                        },
                        Err(_) => {},
                    }
                },
                Err(_) => {},
            }
        },
        Err(_) => {},
    }
}

/// One value decode preserves the cache invariant; the value it returns is
/// link-valid against the final cache lengths, and the caches only grow.
pub proof fn lemma_sd_value_links(input: Seq<u8>, st: SpecState, depth: nat)
    requires
        st_ok(st),
    ensures
        match sd_value(input, st, depth) {
            Ok(r) => st_ok(r.1) && links_ok(r.0, r.1.objs.len() as int, r.1.syms.len() as int)
                && st.objs.len() <= r.1.objs.len() && st.syms.len() <= r.1.syms.len(),
            Err(_) => true,
        },
    decreases depth, 0nat, 0nat,
{
    if depth == 0 || !(st.pos + 1 <= input.len()) {
        return ;
    }
    let tag = input[st.pos];
    let st1 = SpecState { pos: st.pos + 1, ..st };
    assert(st_ok(st1));
    if tag == 0x66 || tag == 0x22 {
        // float and byte-string payloads hold no back-references
        match sd_float(input, st1) {
            Ok(r) => {
                lemma_push_linkless(st1, r.0, r.1);
            },
            Err(_) => {},
        }
        match sd_string(input, st1) {
            Ok(r) => {
                lemma_push_linkless(st1, r.0, r.1);
            },
            Err(_) => {},
        }
    } else if tag == 0x3A {
        match sd_sym_new(input, st1) {
            Ok((bytes, st2)) => {
                lemma_st_ok_sym_push(st1, bytes, st2);
            },
            Err(_) => {},
        }
    } else if tag == 0x5B {
        lemma_sd_array_links(input, st1, (depth - 1) as nat);
    } else if tag == 0x7B {
        lemma_sd_hash_links(input, st1, (depth - 1) as nat);
    } else if tag == 0x6F {
        lemma_sd_object_links(input, st1, (depth - 1) as nat);
    } else if tag == 0x49 {
        lemma_sd_ivar_wrap_links(input, st1, (depth - 1) as nat);
    } else if tag == 0x75 {
        lemma_sd_user_links(input, st1, st.pos);
    } else {
        // nil, booleans, integers and back-references leave the caches as
        // they stand; a back-reference is in range by its own bounds check
    }
}

/// Array element decoding preserves the invariant; every element gathered
/// so far stays link-valid as the caches grow.
proof fn lemma_sd_elems_links(
    input: Seq<u8>,
    st: SpecState,
    acc: Seq<SpecValue>,
    n: nat,
    depth: nat,
)
    requires
        st_ok(st),
        forall|i: int|
            0 <= i < acc.len() ==> links_ok(
                #[trigger] acc[i],
                st.objs.len() as int,
                st.syms.len() as int,
            ),
    ensures
        match sd_elems(input, st, acc, n, depth) {
            Ok(r) => st_ok(r.1) && (forall|i: int|
                0 <= i < r.0.len() ==> links_ok(
                    #[trigger] r.0[i],
                    r.1.objs.len() as int,
                    r.1.syms.len() as int,
                )) && st.objs.len() <= r.1.objs.len() && st.syms.len() <= r.1.syms.len(),
            Err(_) => true,
        },
    decreases depth, 1nat, n,
{
    if n == 0 {
    } else {
        lemma_sd_value_links(input, st, depth);
        match sd_value(input, st, depth) {
            Ok((v, st1)) => {
                let acc1 = acc.push(v);
                assert forall|i: int| 0 <= i < acc1.len() implies links_ok(
                    #[trigger] acc1[i],
                    st1.objs.len() as int,
                    st1.syms.len() as int,
                ) by {
                    if i < acc.len() {
                        assert(acc1[i] == acc[i]);
                        lemma_links_ok_mono(
                            acc[i],
                            st.objs.len() as int,
                            st.syms.len() as int,
                            st1.objs.len() as int,
                            st1.syms.len() as int,
                        );
                    } else {
                        assert(acc1[i] == v);
                    }
                }
                lemma_sd_elems_links(input, st1, acc1, (n - 1) as nat, depth);
            },
            Err(_) => {},
        }
    }
}

/// The array branch preserves the invariant and yields a link-valid array.
proof fn lemma_sd_array_links(input: Seq<u8>, st: SpecState, depth: nat)
    requires
        st_ok(st),
    ensures
        match sd_array(input, st, depth) {
            Ok(r) => st_ok(r.1) && links_ok(r.0, r.1.objs.len() as int, r.1.syms.len() as int)
                && st.objs.len() <= r.1.objs.len() && st.syms.len() <= r.1.syms.len(),
            Err(_) => true,
        },
    decreases depth, 2nat, 0nat,
{
    match crate::varint::spec_decode_fixnum(input, st.pos) {
        Ok((n, p1)) => {
            if n >= 0 {
                let slot = st.objs.len() as int;
                let st1 = SpecState { pos: p1, objs: st.objs.push(SpecValue::Null), ..st };
                lemma_st_ok_push(st, SpecValue::Null, st1);
                lemma_sd_elems_links(input, st1, Seq::empty(), n as nat, depth);
                match sd_elems(input, st1, Seq::empty(), n as nat, depth) {
                    Ok((elems, st2)) => {
                        let v = SpecValue::Array(elems);
                        assert(links_ok(v, st2.objs.len() as int, st2.syms.len() as int));
                        lemma_st_ok_update(
                            st2,
                            slot,
                            v,
                            SpecState { objs: st2.objs.update(slot, v), ..st2 },
                        );
                    },
                    Err(_) => {},
                }
            }
        },
        Err(_) => {},
    }
}

/// Hash pair decoding preserves the invariant; inserting keeps every
/// stored value link-valid.
proof fn lemma_sd_pairs_links(
    input: Seq<u8>,
    st: SpecState,
    acc: Seq<(i32, SpecValue)>,
    n: nat,
    depth: nat,
)
    requires
        st_ok(st),
        forall|i: int|
            0 <= i < acc.len() ==> links_ok(
                #[trigger] acc[i].1,
                st.objs.len() as int,
                st.syms.len() as int,
            ),
    ensures
        match sd_pairs(input, st, acc, n, depth) {
            Ok(r) => st_ok(r.1) && (forall|i: int|
                0 <= i < r.0.len() ==> links_ok(
                    #[trigger] r.0[i].1,
                    r.1.objs.len() as int,
                    r.1.syms.len() as int,
                )) && st.objs.len() <= r.1.objs.len() && st.syms.len() <= r.1.syms.len(),
            Err(_) => true,
        },
    decreases depth, 1nat, n,
{
    if n == 0 || !(st.pos + 1 <= input.len()) || input[st.pos] != 0x69 {
    } else {
        match crate::varint::spec_decode_fixnum(input, st.pos + 1) {
            Ok((k, p1)) => {
                let stv = SpecState { pos: p1, ..st };
                assert(st_ok(stv));
                lemma_sd_value_links(input, stv, depth);
                match sd_value(input, stv, depth) {
                    Ok((v, st1)) => {
                        let acc1 = spec_hash_insert(acc, k, v);
                        lemma_find_key_bounds(acc, k);
                        assert forall|i: int| 0 <= i < acc1.len() implies links_ok(
                            #[trigger] acc1[i].1,
                            st1.objs.len() as int,
                            st1.syms.len() as int,
                        ) by {
                            if i < acc.len() && acc1[i].1 == acc[i].1 {
                                lemma_links_ok_mono(
                                    acc[i].1,
                                    st.objs.len() as int,
                                    st.syms.len() as int,
                                    st1.objs.len() as int,
                                    st1.syms.len() as int,
                                );
                            } else {
                                assert(acc1[i].1 == v);
                            }
                        }
                        lemma_sd_pairs_links(input, st1, acc1, (n - 1) as nat, depth);
                    },
                    Err(_) => {},
                }
            },
            Err(_) => {},
        }
    }
}

/// `spec_find_key` only ever answers with an in-range index.
proof fn lemma_find_key_bounds(s: Seq<(i32, SpecValue)>, k: i32)
    ensures
        match spec_find_key(s, k) {
            Some(i) => 0 <= i < s.len(),
            None => true,
        },
    decreases s.len(),
{
    if s.len() > 0 && s[0].0 != k {
        lemma_find_key_bounds(s.drop_first(), k);
    }
}

/// The hash branch preserves the invariant and yields a link-valid hash.
proof fn lemma_sd_hash_links(input: Seq<u8>, st: SpecState, depth: nat)
    requires
        st_ok(st),
    ensures
        match sd_hash(input, st, depth) {
            Ok(r) => st_ok(r.1) && links_ok(r.0, r.1.objs.len() as int, r.1.syms.len() as int)
                && st.objs.len() <= r.1.objs.len() && st.syms.len() <= r.1.syms.len(),
            Err(_) => true,
        },
    decreases depth, 2nat, 0nat,
{
    match crate::varint::spec_decode_fixnum(input, st.pos) {
        Ok((n, p1)) => {
            if n >= 0 {
                let slot = st.objs.len() as int;
                let st1 = SpecState { pos: p1, objs: st.objs.push(SpecValue::Null), ..st };
                lemma_st_ok_push(st, SpecValue::Null, st1);
                lemma_sd_pairs_links(input, st1, Seq::empty(), n as nat, depth);
                match sd_pairs(input, st1, Seq::empty(), n as nat, depth) {
                    Ok((pairs, st2)) => {
                        let v = SpecValue::Hash(pairs);
                        assert(links_ok(v, st2.objs.len() as int, st2.syms.len() as int));
                        lemma_st_ok_update(
                            st2,
                            slot,
                            v,
                            SpecState { objs: st2.objs.update(slot, v), ..st2 },
                        );
                    },
                    Err(_) => {},
                }
            }
        },
        Err(_) => {},
    }
}

/// Instance-variable decoding preserves the invariant; every pair gathered
/// so far stays link-valid as the caches grow.
proof fn lemma_sd_ivars_links(
    input: Seq<u8>,
    st: SpecState,
    acc: Seq<(Seq<u8>, SpecValue)>,
    n: nat,
    depth: nat,
)
    requires
        st_ok(st),
        forall|i: int|
            0 <= i < acc.len() ==> links_ok(
                #[trigger] acc[i].1,
                st.objs.len() as int,
                st.syms.len() as int,
            ),
    ensures
        match sd_ivars(input, st, acc, n, depth) {
            Ok(r) => st_ok(r.1) && (forall|i: int|
                0 <= i < r.0.len() ==> links_ok(
                    #[trigger] r.0[i].1,
                    r.1.objs.len() as int,
                    r.1.syms.len() as int,
                )) && st.objs.len() <= r.1.objs.len() && st.syms.len() <= r.1.syms.len(),
            Err(_) => true,
        },
    decreases depth, 1nat, n,
{
    if n == 0 {
    } else {
        lemma_sd_symbol_links(input, st);
        match sd_symbol(input, st) {
            Ok((key, stk)) => {
                if key.len() >= 1 && key[0] == 0x40 {
                    lemma_sd_value_links(input, stk, depth);
                    match sd_value(input, stk, depth) {
                        Ok((v, st1)) => {
                            let acc1 = acc.push((key, v));
                            assert forall|i: int| 0 <= i < acc1.len() implies links_ok(
                                #[trigger] acc1[i].1,
                                st1.objs.len() as int,
                                st1.syms.len() as int,
                            ) by {
                                if i < acc.len() {
                                    assert(acc1[i] == acc[i]);
                                    lemma_links_ok_mono(
                                        acc[i].1,
                                        st.objs.len() as int,
                                        st.syms.len() as int,
                                        st1.objs.len() as int,
                                        st1.syms.len() as int,
                                    );
                                } else {
                                    assert(acc1[i].1 == v);
                                }
                            }
                            lemma_sd_ivars_links(input, st1, acc1, (n - 1) as nat, depth);
                        },
                        Err(_) => {},
                    }
                }
            },
            Err(_) => {},
        }
    }
}

/// The object branch preserves the invariant and yields a link-valid
/// object.
proof fn lemma_sd_object_links(input: Seq<u8>, st: SpecState, depth: nat)
    requires
        st_ok(st),
    ensures
        match sd_object(input, st, depth) {
            Ok(r) => st_ok(r.1) && links_ok(r.0, r.1.objs.len() as int, r.1.syms.len() as int)
                && st.objs.len() <= r.1.objs.len() && st.syms.len() <= r.1.syms.len(),
            Err(_) => true,
        },
    decreases depth, 2nat, 0nat,
{
    lemma_sd_symbol_links(input, st);
    match sd_symbol(input, st) {
        Ok((name, stn)) => {
            match crate::varint::spec_decode_fixnum(input, stn.pos) {
                Ok((n, p2)) => {
                    if n >= 0 {
                        let slot = stn.objs.len() as int;
                        let st1 = SpecState {
                            pos: p2,
                            objs: stn.objs.push(SpecValue::Null),
                            ..stn
                        };
                        lemma_st_ok_push(stn, SpecValue::Null, st1);
                        lemma_sd_ivars_links(input, st1, Seq::empty(), n as nat, depth);
                        match sd_ivars(input, st1, Seq::empty(), n as nat, depth) {
                            Ok((ivars, st2)) => {
                                let v = SpecValue::Object { name, ivars };
                                assert(links_ok(
                                    v,
                                    st2.objs.len() as int,
                                    st2.syms.len() as int,
                                ));
                                lemma_st_ok_update(
                                    st2,
                                    slot,
                                    v,
                                    SpecState { objs: st2.objs.update(slot, v), ..st2 },
                                );
                            },
                            Err(_) => {},
                        }
                    }
                },
                Err(_) => {},
            }
        },
        Err(_) => {},
    }
}

/// Metadata decoding preserves the invariant and only grows the caches.
proof fn lemma_sd_meta_links(input: Seq<u8>, st: SpecState, n: nat, depth: nat)
    requires
        st_ok(st),
    ensures
        match sd_meta(input, st, n, depth) {
            Ok(st2) => st_ok(st2) && st.objs.len() <= st2.objs.len() && st.syms.len()
                <= st2.syms.len(),
            Err(_) => true,
        },
    decreases depth, 1nat, n,
{
    if n == 0 {
    } else {
        lemma_sd_symbol_links(input, st);
        match sd_symbol(input, st) {
            Ok((_key, stk)) => {
                lemma_sd_value_links(input, stk, depth);
                match sd_value(input, stk, depth) {
                    Ok((_v, st1)) => {
                        lemma_sd_meta_links(input, st1, (n - 1) as nat, depth);
                    },
                    Err(_) => {},
                }
            },
            Err(_) => {},
        }
    }
}

/// The wrapper branch preserves the invariant; the wrapped value stays
/// link-valid while the metadata grows the caches.
proof fn lemma_sd_ivar_wrap_links(input: Seq<u8>, st: SpecState, depth: nat)
    requires
        st_ok(st),
    ensures
        match sd_ivar_wrap(input, st, depth) {
            Ok(r) => st_ok(r.1) && links_ok(r.0, r.1.objs.len() as int, r.1.syms.len() as int)
                && st.objs.len() <= r.1.objs.len() && st.syms.len() <= r.1.syms.len(),
            Err(_) => true,
        },
    decreases depth, 2nat, 0nat,
{
    lemma_sd_value_links(input, st, depth);
    match sd_value(input, st, depth) {
        Ok((v, st1)) => {
            match crate::varint::spec_decode_fixnum(input, st1.pos) {
                Ok((n, p)) => {
                    if n >= 0 {
                        let stm = SpecState { pos: p, ..st1 };
                        assert(st_ok(stm));
                        lemma_sd_meta_links(input, stm, n as nat, depth);
                        match sd_meta(input, stm, n as nat, depth) {
                            Ok(st2) => {
                                lemma_links_ok_mono(
                                    v,
                                    st1.objs.len() as int,
                                    st1.syms.len() as int,
                                    st2.objs.len() as int,
                                    st2.syms.len() as int,
                                );
                            },
                            Err(_) => {},
                        }
                    }
                },
                Err(_) => {},
            }
        },
        Err(_) => {},
    }
}

/// Reference validity: in a successfully decoded stream, every `Link` and
/// `Symlink` anywhere in the root value or in any object-cache slot names
/// an existing slot of its cache, so resolving any back-reference of the
/// returned graph succeeds.
pub proof fn lemma_decode_links(input: Seq<u8>)
    ensures
        match spec_decode(input) {
            Ok(d) => links_ok(d.root, d.objects.len() as int, d.symbols.len() as int)
                && forall|i: int|
                0 <= i < d.objects.len() ==> links_ok(
                    #[trigger] d.objects[i],
                    d.objects.len() as int,
                    d.symbols.len() as int,
                ),
            Err(_) => true,
        },
{
    lemma_sd_value_links(input, SpecState::init(), crate::reader::MAX_DEPTH as nat);
}

} // verus!
