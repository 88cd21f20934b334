//! The mathematical model of the decoder: a total, recursive description of
//! what one decode step returns — value, new state or error — for every
//! input.  The executable reader is verified to agree with these functions
//! exactly.
//!
//! State threads through every step: the read position, the object cache,
//! the symbol cache and the diagnostics gathered so far.  Containers reserve
//! their object-cache slot before their children are decoded and fill it
//! afterwards, which is what makes self-referential links representable.

use vstd::prelude::*;

use crate::error::{SpecError, SpecErrorKind};
use crate::utf8::is_utf8;
use crate::value::{Diagnostic, SpecValue};
use crate::varint::{le_val, spec_decode_fixnum};

verus! {

/// The decoder's state between steps.
#[verifier::ext_equal]
pub struct SpecState {
    /// The read position in the input.
    pub pos: int,
    /// The object cache: every reference-bearing value, in registration order.
    pub objs: Seq<SpecValue>,
    /// The symbol cache: every interned symbol, in registration order.
    pub syms: Seq<Seq<u8>>,
    /// Non-fatal observations, in the order they were made.
    pub diags: Seq<Diagnostic>,
}

impl SpecState {
    /// The state a fresh decode starts from.
    pub open spec fn init() -> SpecState {
        SpecState { pos: 0, objs: Seq::empty(), syms: Seq::empty(), diags: Seq::empty() }
    }
}

/// An `UnexpectedEof` at `pos`.
pub open spec fn sd_eof(pos: int) -> SpecError {
    SpecError { kind: SpecErrorKind::UnexpectedEof, offset: pos }
}

/// Reading `n` bytes exactly: the bytes, or `UnexpectedEof` at the position
/// the read started from.
pub open spec fn sd_take(input: Seq<u8>, pos: int, n: int) -> Result<Seq<u8>, SpecError> {
    if 0 <= n && pos + n <= input.len() {
        Ok(input.subrange(pos, pos + n))
    } else {
        Err(sd_eof(pos))
    }
}

/// Reading a Fixnum length followed by that many raw bytes.  A negative
/// length can never be satisfied and reads as `UnexpectedEof` at the
/// position just past the length.
pub open spec fn sd_len_bytes(input: Seq<u8>, pos: int) -> Result<(Seq<u8>, int), SpecError> {
    match spec_decode_fixnum(input, pos) {
        Err(e) => Err(e),
        Ok((len, p1)) => if len < 0 {
            Err(sd_eof(p1))
        } else {
            match sd_take(input, p1, len as int) {
                Err(e) => Err(e),
                Ok(bytes) => Ok((bytes, p1 + len)),
            }
        },
    }
}

/// The signed 32-bit value of four little-endian bytes at `pos`.
pub open spec fn sd_i32_at(input: Seq<u8>, pos: int) -> i32 {
    let m = le_val(input.subrange(pos, pos + 4));
    if m >= 0x8000_0000 {
        (m - 0x1_0000_0000) as i32
    } else {
        m as i32
    }
}

/// The signed 16-bit value of two little-endian bytes at `pos`.
pub open spec fn sd_i16_at(input: Seq<u8>, pos: int) -> i16 {
    let m = le_val(input.subrange(pos, pos + 2));
    if m >= 0x8000 {
        (m - 0x1_0000) as i16
    } else {
        m as i16
    }
}

/// The unsigned 64-bit value of eight little-endian bytes at `pos` (used for
/// IEEE-754 double bit patterns).
pub open spec fn sd_u64_at(input: Seq<u8>, pos: int) -> u64 {
    le_val(input.subrange(pos, pos + 8)) as u64
}

/// A fresh symbol after a `:` tag, `pos` standing at its length Fixnum:
/// length-prefixed bytes, checked to be UTF-8 and interned into the symbol
/// cache.  `InvalidUtf8` carries the position where the bytes began.
pub open spec fn sd_sym_new(input: Seq<u8>, st: SpecState) -> Result<(Seq<u8>, SpecState), SpecError> {
    match sd_len_bytes(input, st.pos) {
        Err(e) => Err(e),
        Ok((bytes, p)) => if is_utf8(bytes) {
            Ok((bytes, SpecState { pos: p, syms: st.syms.push(bytes), ..st }))
        } else {
            Err(SpecError { kind: SpecErrorKind::InvalidUtf8, offset: p - bytes.len() })
        },
    }
}

/// A symbol back-reference after a `;` tag, `pos` standing at its index
/// Fixnum: the slot index and the interned bytes it resolves to.
pub open spec fn sd_sym_ref(input: Seq<u8>, st: SpecState) -> Result<
    ((usize, Seq<u8>), SpecState),
    SpecError,
> {
    match spec_decode_fixnum(input, st.pos) {
        Err(e) => Err(e),
        Ok((idx, p)) => if 0 <= idx < st.syms.len() {
            Ok(((idx as usize, st.syms[idx as int]), SpecState { pos: p, ..st }))
        } else {
            Err(SpecError { kind: SpecErrorKind::SymlinkIndexOutOfRange, offset: st.pos })
        },
    }
}

/// A symbol in name position (`o` class names, `u` type names, instance
/// variable and metadata keys): either a fresh `:` symbol or a `;`
/// back-reference; any other tag is unknown here.
pub open spec fn sd_symbol(input: Seq<u8>, st: SpecState) -> Result<(Seq<u8>, SpecState), SpecError> {
    if !(st.pos + 1 <= input.len()) {
        Err(sd_eof(st.pos))
    } else {
        let tag = input[st.pos];
        let st1 = SpecState { pos: st.pos + 1, ..st };
        if tag == 0x3A {
            sd_sym_new(input, st1)
        } else if tag == 0x3B {
            match sd_sym_ref(input, st1) {
                Err(e) => Err(e),
                Ok(((_idx, bytes), st2)) => Ok((bytes, st2)),
            }
        } else {
            Err(SpecError { kind: SpecErrorKind::UnknownTypeTag(tag), offset: st.pos })
        }
    }
}

/// An object back-reference after a `@` tag, `pos` standing at its index
/// Fixnum: a bounds-checked `Link`.  The index must lie strictly below the
/// object cache's current length.
pub open spec fn sd_link(input: Seq<u8>, st: SpecState) -> Result<(SpecValue, SpecState), SpecError> {
    match spec_decode_fixnum(input, st.pos) {
        Err(e) => Err(e),
        Ok((idx, p)) => if 0 <= idx < st.objs.len() {
            Ok((SpecValue::Link(idx as usize), SpecState { pos: p, ..st }))
        } else {
            Err(SpecError { kind: SpecErrorKind::LinkIndexOutOfRange, offset: st.pos })
        },
    }
}

/// The first position holding key `k`, scanning left to right.
pub open spec fn spec_find_key(s: Seq<(i32, SpecValue)>, k: i32) -> Option<int>
    decreases s.len(),
{
    if s.len() == 0 {
        None
    } else if s[0].0 == k {
        Some(0int)
    } else {
        match spec_find_key(s.drop_first(), k) {
            Some(i) => Some(i + 1),
            None => None,
        }
    }
}

/// Hash insertion: a duplicate key overwrites the value in place (last
/// write wins, original position kept); a new key appends.
pub open spec fn spec_hash_insert(s: Seq<(i32, SpecValue)>, k: i32, v: SpecValue) -> Seq<
    (i32, SpecValue),
> {
    match spec_find_key(s, k) {
        Some(i) => s.update(i, (k, v)),
        None => s.push((k, v)),
    }
}

/// `spec_find_key` finds exactly the first occurrence.
pub proof fn lemma_find_key(s: Seq<(i32, SpecValue)>, k: i32)
    ensures
        match spec_find_key(s, k) {
            Some(i) => 0 <= i < s.len() && s[i].0 == k && forall|j: int|
                0 <= j < i ==> s[j].0 != k,
            None => forall|j: int| 0 <= j < s.len() ==> s[j].0 != k,
        },
    decreases s.len(),
{
    if s.len() > 0 && s[0].0 != k {
        let t = s.drop_first();
        lemma_find_key(t, k);
        match spec_find_key(t, k) {
            Some(i) => {
                assert(t[i] == s[i + 1]);
                assert forall|j: int| 0 <= j < i + 1 implies s[j].0 != k by {
                    if j > 0 {
                        assert(t[j - 1] == s[j]);
                    }
                }
            },
            None => {
                assert forall|j: int| 0 <= j < s.len() implies s[j].0 != k by {
                    if j > 0 {
                        assert(t[j - 1] == s[j]);
                    }
                }
            },
        }
    }
}

/// The name of the engine's color record.
pub open spec fn color_name() -> Seq<u8> {
    seq![0x43u8, 0x6Fu8, 0x6Cu8, 0x6Fu8, 0x72u8]
}

/// The name of the engine's tone record.
pub open spec fn tone_name() -> Seq<u8> {
    seq![0x54u8, 0x6Fu8, 0x6Eu8, 0x65u8]
}

/// The name of the engine's table record.
pub open spec fn table_name() -> Seq<u8> {
    seq![0x54u8, 0x61u8, 0x62u8, 0x6Cu8, 0x65u8]
}

/// A float after an `f` tag: length-prefixed ASCII text, kept as it stands
/// and registered in the object cache.
pub open spec fn sd_float(input: Seq<u8>, st: SpecState) -> Result<(SpecValue, SpecState), SpecError> {
    match sd_len_bytes(input, st.pos) {
        Err(e) => Err(e),
        Ok((text, p)) => {
            let v = SpecValue::Float(text);
            Ok((v, SpecState { pos: p, objs: st.objs.push(v), ..st }))
        },
    }
}

/// A byte string after a `"` tag: length-prefixed raw bytes, registered in
/// the object cache.
pub open spec fn sd_string(input: Seq<u8>, st: SpecState) -> Result<(SpecValue, SpecState), SpecError> {
    match sd_len_bytes(input, st.pos) {
        Err(e) => Err(e),
        Ok((bytes, p)) => {
            let v = SpecValue::Str(bytes);
            Ok((v, SpecState { pos: p, objs: st.objs.push(v), ..st }))
        },
    }
}

/// A color record payload: four little-endian doubles, kept as bit
/// patterns, registered in the object cache.
pub open spec fn sd_color(input: Seq<u8>, st: SpecState) -> Result<(SpecValue, SpecState), SpecError> {
    if st.pos + 32 <= input.len() {
        let v = SpecValue::Color {
            red: sd_u64_at(input, st.pos),
            green: sd_u64_at(input, st.pos + 8),
            blue: sd_u64_at(input, st.pos + 16),
            alpha: sd_u64_at(input, st.pos + 24),
        };
        Ok((v, SpecState { pos: st.pos + 32, objs: st.objs.push(v), ..st }))
    } else {
        Err(sd_eof(st.pos))
    }
}

/// A tone record payload: like a color, with a gray component.
pub open spec fn sd_tone(input: Seq<u8>, st: SpecState) -> Result<(SpecValue, SpecState), SpecError> {
    if st.pos + 32 <= input.len() {
        let v = SpecValue::Tone {
            red: sd_u64_at(input, st.pos),
            green: sd_u64_at(input, st.pos + 8),
            blue: sd_u64_at(input, st.pos + 16),
            gray: sd_u64_at(input, st.pos + 24),
        };
        Ok((v, SpecState { pos: st.pos + 32, objs: st.objs.push(v), ..st }))
    } else {
        Err(sd_eof(st.pos))
    }
}

/// A table record payload: three little-endian dimensions, an explicit cell
/// count, then that many little-endian 16-bit cells.  The explicit count is
/// trusted; when it differs from the product of the dimensions a diagnostic
/// is recorded.  A negative count reads zero cells.
pub open spec fn sd_table(input: Seq<u8>, st: SpecState) -> Result<(SpecValue, SpecState), SpecError> {
    if st.pos + 16 <= input.len() {
        let x = sd_i32_at(input, st.pos);
        let y = sd_i32_at(input, st.pos + 4);
        let z = sd_i32_at(input, st.pos + 8);
        let cnt = sd_i32_at(input, st.pos + 12);
        let n = if cnt > 0 {
            cnt as int
        } else {
            0
        };
        let body = st.pos + 16;
        if body + 2 * n <= input.len() {
            let cells = Seq::new(
                n as nat,
                |i: int| sd_i16_at(input, body + 2 * i),
            );
            let v = SpecValue::Table { x, y, z, cells };
            let diags = if x * y * z == cnt {
                st.diags
            } else {
                st.diags.push(
                    Diagnostic::TableCellCountMismatch {
                        x_size: x,
                        y_size: y,
                        z_size: z,
                        cell_count: cnt,
                    },
                )
            };
            Ok((v, SpecState { pos: body + 2 * n, objs: st.objs.push(v), diags, ..st }))
        } else {
            Err(sd_eof(body))
        }
    } else {
        Err(sd_eof(st.pos))
    }
}

/// A user-defined record after a `u` tag: a symbol type name, a Fixnum
/// payload length (a sanity bound only; its value is not interpreted), then
/// the record payload by name.  `tag_pos` is the position of the `u` tag,
/// carried by the error for an unsupported name.
pub open spec fn sd_user(input: Seq<u8>, st: SpecState, tag_pos: int) -> Result<
    (SpecValue, SpecState),
    SpecError,
> {
    match sd_symbol(input, st) {
        Err(e) => Err(e),
        Ok((name, st1)) => match spec_decode_fixnum(input, st1.pos) {
            Err(e) => Err(e),
            Ok((_paylen, p2)) => {
                let st2 = SpecState { pos: p2, ..st1 };
                if name == color_name() {
                    sd_color(input, st2)
                } else if name == tone_name() {
                    sd_tone(input, st2)
                } else if name == table_name() {
                    sd_table(input, st2)
                } else {
                    Err(
                        SpecError {
                            kind: SpecErrorKind::UnsupportedUserDefinedType(name),
                            offset: tag_pos,
                        },
                    )
                }
            },
        },
    }
}

/// One value: the dispatcher.  `depth` is the remaining nesting budget;
/// exhausting it is a `ResourceLimitExceeded` error at the value's tag.
pub open spec fn sd_value(input: Seq<u8>, st: SpecState, depth: nat) -> Result<
    (SpecValue, SpecState),
    SpecError,
>
    decreases depth, 0nat, 0nat,
{
    if depth == 0 {
        Err(SpecError { kind: SpecErrorKind::ResourceLimitExceeded, offset: st.pos })
    } else if !(st.pos + 1 <= input.len()) {
        Err(sd_eof(st.pos))
    } else {
        let tag = input[st.pos];
        let st1 = SpecState { pos: st.pos + 1, ..st };
        if tag == 0x30 {
            // '0': nil
            Ok((SpecValue::Null, st1))
        } else if tag == 0x54 {
            // 'T'
            Ok((SpecValue::Bool(true), st1))
        } else if tag == 0x46 {
            // 'F'
            Ok((SpecValue::Bool(false), st1))
        } else if tag == 0x69 {
            // 'i': Fixnum
            match spec_decode_fixnum(input, st1.pos) {
                Err(e) => Err(e),
                Ok((v, p)) => Ok((SpecValue::Int(v), SpecState { pos: p, ..st })),
            }
        } else if tag == 0x66 {
            // 'f': float text
            sd_float(input, st1)
        } else if tag == 0x22 {
            // '"': byte string
            sd_string(input, st1)
        } else if tag == 0x3A {
            // ':': fresh symbol
            match sd_sym_new(input, st1) {
                Err(e) => Err(e),
                Ok((bytes, st2)) => Ok((SpecValue::Symbol(bytes), st2)),
            }
        } else if tag == 0x3B {
            // ';': symbol back-reference
            match sd_sym_ref(input, st1) {
                Err(e) => Err(e),
                Ok(((idx, _bytes), st2)) => Ok((SpecValue::Symlink(idx), st2)),
            }
        } else if tag == 0x40 {
            // '@': object back-reference
            sd_link(input, st1)
        } else if tag == 0x5B {
            // '[': array
            sd_array(input, st1, (depth - 1) as nat)
        } else if tag == 0x7B {
            // '{': integer-keyed hash
            sd_hash(input, st1, (depth - 1) as nat)
        } else if tag == 0x6F {
            // 'o': generic object
            sd_object(input, st1, (depth - 1) as nat)
        } else if tag == 0x49 {
            // 'I': value wrapped with discarded metadata
            sd_ivar_wrap(input, st1, (depth - 1) as nat)
        } else if tag == 0x75 {
            // 'u': user-defined engine record
            sd_user(input, st1, st.pos)
        } else {
            Err(SpecError { kind: SpecErrorKind::UnknownTypeTag(tag), offset: st.pos })
        }
    }
}

/// An array after its `[` tag: a Fixnum count, the cache slot reserved
/// before the children, then the children in stream order; the slot is
/// filled with the finished array.
pub open spec fn sd_array(input: Seq<u8>, st: SpecState, depth: nat) -> Result<
    (SpecValue, SpecState),
    SpecError,
>
    decreases depth, 2nat, 0nat,
{
    match spec_decode_fixnum(input, st.pos) {
        Err(e) => Err(e),
        Ok((n, p1)) => if n < 0 {
            Err(sd_eof(p1))
        } else {
            let slot = st.objs.len() as int;
            let st1 = SpecState { pos: p1, objs: st.objs.push(SpecValue::Null), ..st };
            match sd_elems(input, st1, Seq::empty(), n as nat, depth) {
                Err(e) => Err(e),
                Ok((elems, st2)) => {
                    let v = SpecValue::Array(elems);
                    Ok((v, SpecState { objs: st2.objs.update(slot, v), ..st2 }))
                },
            }
        },
    }
}

/// `n` further array elements, accumulating onto `acc`.
pub open spec fn sd_elems(
    input: Seq<u8>,
    st: SpecState,
    acc: Seq<SpecValue>,
    n: nat,
    depth: nat,
) -> Result<(Seq<SpecValue>, SpecState), SpecError>
    decreases depth, 1nat, n,
{
    if n == 0 {
        Ok((acc, st))
    } else {
        match sd_value(input, st, depth) {
            Err(e) => Err(e),
            Ok((v, st1)) => sd_elems(input, st1, acc.push(v), (n - 1) as nat, depth),
        }
    }
}

/// A hash after its `{` tag: a Fixnum pair count, the cache slot reserved
/// first, then `n` pairs; every key must be a Fixnum tag.
pub open spec fn sd_hash(input: Seq<u8>, st: SpecState, depth: nat) -> Result<
    (SpecValue, SpecState),
    SpecError,
>
    decreases depth, 2nat, 0nat,
{
    match spec_decode_fixnum(input, st.pos) {
        Err(e) => Err(e),
        Ok((n, p1)) => if n < 0 {
            Err(sd_eof(p1))
        } else {
            let slot = st.objs.len() as int;
            let st1 = SpecState { pos: p1, objs: st.objs.push(SpecValue::Null), ..st };
            match sd_pairs(input, st1, Seq::empty(), n as nat, depth) {
                Err(e) => Err(e),
                Ok((pairs, st2)) => {
                    let v = SpecValue::Hash(pairs);
                    Ok((v, SpecState { objs: st2.objs.update(slot, v), ..st2 }))
                },
            }
        },
    }
}

/// `n` further hash pairs.  A key with any tag but `i` is
/// `HashKeyNotInteger` at the key's tag; a duplicate key overwrites.
pub open spec fn sd_pairs(
    input: Seq<u8>,
    st: SpecState,
    acc: Seq<(i32, SpecValue)>,
    n: nat,
    depth: nat,
) -> Result<(Seq<(i32, SpecValue)>, SpecState), SpecError>
    decreases depth, 1nat, n,
{
    if n == 0 {
        Ok((acc, st))
    } else if !(st.pos + 1 <= input.len()) {
        Err(sd_eof(st.pos))
    } else if input[st.pos] != 0x69 {
        Err(SpecError { kind: SpecErrorKind::HashKeyNotInteger, offset: st.pos })
    } else {
        match spec_decode_fixnum(input, st.pos + 1) {
            Err(e) => Err(e),
            Ok((k, p1)) => match sd_value(input, SpecState { pos: p1, ..st }, depth) {
                Err(e) => Err(e),
                Ok((v, st1)) => sd_pairs(input, st1, spec_hash_insert(acc, k, v), (n - 1) as nat, depth),
            },
        }
    }
}

/// A generic object after its `o` tag: a symbol class name, a Fixnum
/// variable count, the cache slot reserved before the variables, then `n`
/// `(symbol key, value)` pairs in order, duplicates retained.
pub open spec fn sd_object(input: Seq<u8>, st: SpecState, depth: nat) -> Result<
    (SpecValue, SpecState),
    SpecError,
>
    decreases depth, 2nat, 0nat,
{
    match sd_symbol(input, st) {
        Err(e) => Err(e),
        Ok((name, st1)) => match spec_decode_fixnum(input, st1.pos) {
            Err(e) => Err(e),
            Ok((n, p2)) => if n < 0 {
                Err(sd_eof(p2))
            } else {
                let slot = st1.objs.len() as int;
                let st2 = SpecState { pos: p2, objs: st1.objs.push(SpecValue::Null), ..st1 };
                match sd_ivars(input, st2, Seq::empty(), n as nat, depth) {
                    Err(e) => Err(e),
                    Ok((ivars, st3)) => {
                        let v = SpecValue::Object { name, ivars };
                        Ok((v, SpecState { objs: st3.objs.update(slot, v), ..st3 }))
                    },
                }
            },
        },
    }
}

/// `n` further instance variables.  Every key is a symbol and must begin
/// with the `@` sentinel, else `ObjectKeyNotInstanceVariable` at the key's
/// tag.
pub open spec fn sd_ivars(
    input: Seq<u8>,
    st: SpecState,
    acc: Seq<(Seq<u8>, SpecValue)>,
    n: nat,
    depth: nat,
) -> Result<(Seq<(Seq<u8>, SpecValue)>, SpecState), SpecError>
    decreases depth, 1nat, n,
{
    if n == 0 {
        Ok((acc, st))
    } else {
        let key_pos = st.pos;
        match sd_symbol(input, st) {
            Err(e) => Err(e),
            Ok((key, st1)) => if !(key.len() >= 1 && key[0] == 0x40) {
                Err(
                    SpecError {
                        kind: SpecErrorKind::ObjectKeyNotInstanceVariable,
                        offset: key_pos,
                    },
                )
            } else {
                match sd_value(input, st1, depth) {
                    Err(e) => Err(e),
                    Ok((v, st2)) => sd_ivars(input, st2, acc.push((key, v)), (n - 1) as nat, depth),
                }
            },
        }
    }
}

/// An `I` wrapper: the wrapped value, then a Fixnum count of `(symbol,
/// value)` metadata pairs that are decoded — their cache effects kept — and
/// discarded; only the wrapped value is returned.
pub open spec fn sd_ivar_wrap(input: Seq<u8>, st: SpecState, depth: nat) -> Result<
    (SpecValue, SpecState),
    SpecError,
>
    decreases depth, 2nat, 0nat,
{
    match sd_value(input, st, depth) {
        Err(e) => Err(e),
        Ok((v, st1)) => match spec_decode_fixnum(input, st1.pos) {
            Err(e) => Err(e),
            Ok((n, p)) => if n < 0 {
                Err(sd_eof(p))
            } else {
                match sd_meta(input, SpecState { pos: p, ..st1 }, n as nat, depth) {
                    Err(e) => Err(e),
                    Ok(st2) => Ok((v, st2)),
                }
            },
        },
    }
}

/// `n` further discarded metadata pairs.
pub open spec fn sd_meta(input: Seq<u8>, st: SpecState, n: nat, depth: nat) -> Result<
    SpecState,
    SpecError,
>
    decreases depth, 1nat, n,
{
    if n == 0 {
        Ok(st)
    } else {
        match sd_symbol(input, st) {
            Err(e) => Err(e),
            Ok((_key, st1)) => match sd_value(input, st1, depth) {
                Err(e) => Err(e),
                Ok((_v, st2)) => sd_meta(input, st2, (n - 1) as nat, depth),
            },
        }
    }
}

} // verus!
