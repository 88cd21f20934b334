//! The executable decoder: a forward-only cursor over the input plus the two
//! append-only caches, with one handler per type tag.  Every handler is
//! verified to agree exactly with the corresponding model function.

use vstd::prelude::*;

use crate::error::{DecodeError, ErrorKind, SpecError};
use crate::model::{
    sd_array, sd_color, sd_elems, sd_eof, sd_float, sd_hash, sd_i16_at, sd_i32_at, sd_ivar_wrap,
    sd_ivars, sd_len_bytes, sd_link, sd_meta, sd_object, sd_pairs, sd_string, sd_sym_new, sd_sym_ref,
    sd_symbol, sd_table, sd_take, sd_tone, sd_u64_at, sd_user, sd_value, color_name, lemma_find_key,
    spec_hash_insert, table_name, tone_name, SpecState,
};
use crate::utf8::check_utf8;
use crate::value::{
    copy_bytes, ivars_view, lemma_array_sval, lemma_hash_sval, lemma_ivars_view_push,
    lemma_object_sval, lemma_objs_view_push, lemma_objs_view_update, lemma_pairs_view_push,
    lemma_pairs_view_update, lemma_syms_view_push, objs_view, pairs_view, syms_view, Color,
    Diagnostic, Object, SpecValue, Table, Tone, Value,
};
use crate::varint::{
    decode_fixnum, le_val, lemma_le_val_bound, lemma_le_val_step, lemma_pow256_small,
    spec_decode_fixnum,
};

verus! {

broadcast use vstd::std_specs::vec::group_vec_axioms;

/// The decoder context: the input, the read position, and the scratch state
/// owned by one decode run.
pub struct Reader {
    /// The complete input.
    pub input: Vec<u8>,
    /// The current read position.
    pub pos: usize,
    /// The object cache: every reference-bearing value, in registration
    /// order; `Link` indices point here.
    pub object_cache: Vec<Value>,
    /// The symbol cache: every interned symbol, in registration order;
    /// `Symlink` indices point here.
    pub symbol_cache: Vec<Vec<u8>>,
    /// Non-fatal observations, in the order they were made.
    pub diagnostics: Vec<Diagnostic>,
}

impl Reader {
    /// The model state this reader is in.
    pub open spec fn st(&self) -> SpecState {
        SpecState {
            pos: self.pos as int,
            objs: objs_view(self.object_cache@),
            syms: syms_view(self.symbol_cache@),
            diags: self.diagnostics@,
        }
    }

    /// The position never runs past the end of the input.
    pub open spec fn wf(&self) -> bool {
        self.pos <= self.input@.len()
    }

    /// A fresh reader over `input`, with empty caches, standing at the
    /// start.
    pub fn new(input: Vec<u8>) -> (r: Reader)
        ensures
            r.input == input,
            r.wf(),
            r.st() == SpecState::init(),
    {
        let r = Reader {
            input,
            pos: 0,
            object_cache: Vec::new(),
            symbol_cache: Vec::new(),
            diagnostics: Vec::new(),
        };
        proof {
            assert(r.st() =~= SpecState::init());
        }
        r
    }

    /// Appends `bytes` to the symbol cache and returns the new slot's index.
    pub fn intern_symbol(&mut self, bytes: Vec<u8>) -> (idx: usize)
        ensures
            idx == old(self).st().syms.len(),
            final(self).st() == (SpecState {
                syms: old(self).st().syms.push(bytes@),
                ..old(self).st()
            }),
            final(self).input == old(self).input,
            final(self).pos == old(self).pos,
            final(self).object_cache == old(self).object_cache,
            final(self).diagnostics == old(self).diagnostics,
            final(self).wf() == old(self).wf(),
            old(self).symbol_cache@.len() <= final(self).symbol_cache@.len(),
    {
        let idx: usize = self.symbol_cache.len();
        proof {
            lemma_syms_view_push(self.symbol_cache@, bytes);
        }
        self.symbol_cache.push(bytes);
        idx
    }

    /// Appends a placeholder to the object cache and returns the new slot's
    /// index, to be filled once the value's children are known.
    pub fn reserve_object_slot(&mut self) -> (idx: usize)
        ensures
            idx == old(self).st().objs.len(),
            idx < final(self).object_cache@.len(),
            final(self).st() == (SpecState {
                objs: old(self).st().objs.push(SpecValue::Null),
                ..old(self).st()
            }),
            final(self).input == old(self).input,
            final(self).pos == old(self).pos,
            final(self).symbol_cache == old(self).symbol_cache,
            final(self).diagnostics == old(self).diagnostics,
            final(self).wf() == old(self).wf(),
            old(self).object_cache@.len() <= final(self).object_cache@.len(),
    {
        let idx: usize = self.object_cache.len();
        proof {
            lemma_objs_view_push(self.object_cache@, Value::Null);
        }
        self.object_cache.push(Value::Null);
        idx
    }

    /// Registers a finished value in the object cache.
    fn register_object(&mut self, v: &Value)
        ensures
            final(self).st() == (SpecState {
                objs: old(self).st().objs.push(v.sval()),
                ..old(self).st()
            }),
            final(self).input == old(self).input,
            final(self).pos == old(self).pos,
            final(self).symbol_cache == old(self).symbol_cache,
            final(self).diagnostics == old(self).diagnostics,
            final(self).wf() == old(self).wf(),
            old(self).object_cache@.len() <= final(self).object_cache@.len(),
    {
        let copy = v.duplicate();
        proof {
            lemma_objs_view_push(self.object_cache@, copy);
        }
        self.object_cache.push(copy);
    }

    /// Fills a reserved object-cache slot with a finished value.
    fn fill_object_slot(&mut self, slot: usize, v: &Value)
        requires
            slot < old(self).object_cache@.len(),
        ensures
            final(self).st() == (SpecState {
                objs: old(self).st().objs.update(slot as int, v.sval()),
                ..old(self).st()
            }),
            final(self).input == old(self).input,
            final(self).pos == old(self).pos,
            final(self).symbol_cache == old(self).symbol_cache,
            final(self).diagnostics == old(self).diagnostics,
            final(self).wf() == old(self).wf(),
            final(self).object_cache@.len() == old(self).object_cache@.len(),
    {
        let copy = v.duplicate();
        proof {
            lemma_objs_view_update(self.object_cache@, slot as int, copy);
        }
        self.object_cache.set(slot, copy);
    }

    /// Reads one byte, or fails with `UnexpectedEof` here.
    fn read_byte(&mut self) -> (r: Result<u8, DecodeError>)
        requires
            old(self).wf(),
        ensures
            final(self).wf(),
            final(self).input == old(self).input,
            final(self).object_cache == old(self).object_cache,
            final(self).symbol_cache == old(self).symbol_cache,
            final(self).diagnostics == old(self).diagnostics,
            match r {
                Ok(b) => old(self).pos + 1 <= old(self).input@.len() && b == old(
                    self,
                ).input@[old(self).pos as int] && final(self).st() == (SpecState {
                    pos: old(self).st().pos + 1,
                    ..old(self).st()
                }),
                Err(e) => old(self).pos + 1 > old(self).input@.len() && e@ == sd_eof(
                    old(self).st().pos,
                ) && *final(self) == *old(self),
            },
    {
        if self.pos >= self.input.len() {
            return Err(DecodeError { kind: ErrorKind::UnexpectedEof, offset: self.pos });
        }
        let b: u8 = self.input[self.pos];
        self.pos = self.pos + 1;
        Ok(b)
    }

    /// Reads exactly `n` bytes, or fails with `UnexpectedEof` at the
    /// position the read started from.
    fn read_exact(&mut self, n: usize) -> (r: Result<Vec<u8>, DecodeError>)
        requires
            old(self).wf(),
        ensures
            final(self).wf(),
            final(self).input == old(self).input,
            final(self).object_cache == old(self).object_cache,
            final(self).symbol_cache == old(self).symbol_cache,
            final(self).diagnostics == old(self).diagnostics,
            match r {
                Ok(b) => sd_take(old(self).input@, old(self).st().pos, n as int) == Ok::<
                    Seq<u8>,
                    SpecError,
                >(b@) && final(self).st() == (SpecState {
                    pos: old(self).st().pos + n,
                    ..old(self).st()
                }),
                Err(e) => sd_take(old(self).input@, old(self).st().pos, n as int) == Err::<
                    Seq<u8>,
                    SpecError,
                >(e@) && *final(self) == *old(self),
            },
    {
        if n > self.input.len() - self.pos {
            return Err(DecodeError { kind: ErrorKind::UnexpectedEof, offset: self.pos });
        }
        let mut b: Vec<u8> = Vec::new();
        let start: usize = self.pos;
        let end: usize = start + n;
        for i in 0..n
            invariant
                b@.len() == i,
                end == start + n,
                end <= self.input@.len(),
                forall|j: int| 0 <= j < i ==> b@[j] == self.input@[start + j],
                *self == (Reader { pos: start, ..*old(self) }),
        {
            b.push(self.input[start + i]);
        }
        self.pos = end;
        proof {
            assert(b@ =~= old(self).input@.subrange(
                start as int,
                start as int + n as int,
            ));
        }
        Ok(b)
    }

    /// Reads one Fixnum and advances past it.
    fn handle_fixnum(&mut self) -> (r: Result<i32, DecodeError>)
        requires
            old(self).wf(),
        ensures
            final(self).wf(),
            final(self).input == old(self).input,
            final(self).object_cache == old(self).object_cache,
            final(self).symbol_cache == old(self).symbol_cache,
            final(self).diagnostics == old(self).diagnostics,
            match r {
                Ok(v) => spec_decode_fixnum(old(self).input@, old(self).st().pos) == Ok::<
                    (i32, int),
                    SpecError,
                >((v, final(self).st().pos)) && final(self).st() == (SpecState {
                    pos: final(self).st().pos,
                    ..old(self).st()
                }) && old(self).pos < final(self).pos,
                Err(e) => spec_decode_fixnum(old(self).input@, old(self).st().pos) == Err::<
                    (i32, int),
                    SpecError,
                >(e@) && *final(self) == *old(self),
            },
    {
        match decode_fixnum(&self.input, self.pos) {
            Ok((v, p)) => {
                self.pos = p;
                Ok(v)
            },
            Err(e) => Err(e),
        }
    }

    /// Reads eight little-endian bytes as an IEEE-754 double's bit pattern.
    fn read_u64le(&mut self) -> (v: u64)
        requires
            old(self).wf(),
            old(self).pos + 8 <= old(self).input@.len(),
        ensures
            final(self).wf(),
            final(self).input == old(self).input,
            final(self).object_cache == old(self).object_cache,
            final(self).symbol_cache == old(self).symbol_cache,
            final(self).diagnostics == old(self).diagnostics,
            v == sd_u64_at(old(self).input@, old(self).st().pos),
            final(self).st() == (SpecState { pos: old(self).st().pos + 8, ..old(self).st() }),
    {
        let nlen: usize = self.input.len();
        let p: usize = self.pos;
        let v: u64 = (self.input[p] as u64) + 256 * (self.input[p + 1] as u64) + 65536 * (self.input[p
            + 2] as u64) + 16777216 * (self.input[p + 3] as u64) + 4294967296 * (self.input[p
            + 4] as u64) + 1099511627776 * (self.input[p + 5] as u64) + 281474976710656 * (self.input[p
            + 6] as u64) + 72057594037927936 * (self.input[p + 7] as u64);
        self.pos = p + 8;
        proof {
            let i = old(self).input@;
            let pi = p as int;
            let q = pi + 8;
            lemma_le_val_step(i, pi, q);
            lemma_le_val_step(i, pi + 1, q);
            lemma_le_val_step(i, pi + 2, q);
            lemma_le_val_step(i, pi + 3, q);
            lemma_le_val_step(i, pi + 4, q);
            lemma_le_val_step(i, pi + 5, q);
            lemma_le_val_step(i, pi + 6, q);
            lemma_le_val_step(i, pi + 7, q);
            assert(le_val(i.subrange(q, q)) == 0);
            lemma_le_val_bound(i.subrange(pi, q));
            lemma_pow256_small();
        }
        v
    }

    /// Reads four little-endian bytes as a signed 32-bit integer.
    fn read_i32le(&mut self) -> (v: i32)
        requires
            old(self).wf(),
            old(self).pos + 4 <= old(self).input@.len(),
        ensures
            final(self).wf(),
            final(self).input == old(self).input,
            final(self).object_cache == old(self).object_cache,
            final(self).symbol_cache == old(self).symbol_cache,
            final(self).diagnostics == old(self).diagnostics,
            v == sd_i32_at(old(self).input@, old(self).st().pos),
            final(self).st() == (SpecState { pos: old(self).st().pos + 4, ..old(self).st() }),
    {
        let nlen: usize = self.input.len();
        let p: usize = self.pos;
        let m: u64 = (self.input[p] as u64) + 256 * (self.input[p + 1] as u64) + 65536 * (self.input[p
            + 2] as u64) + 16777216 * (self.input[p + 3] as u64);
        self.pos = p + 4;
        proof {
            let i = old(self).input@;
            let pi = p as int;
            let q = pi + 4;
            lemma_le_val_step(i, pi, q);
            lemma_le_val_step(i, pi + 1, q);
            lemma_le_val_step(i, pi + 2, q);
            lemma_le_val_step(i, pi + 3, q);
            assert(le_val(i.subrange(q, q)) == 0);
            lemma_le_val_bound(i.subrange(pi, q));
            lemma_pow256_small();
        }
        if m >= 0x8000_0000 {
            ((m as i64) - 0x1_0000_0000) as i32
        } else {
            m as i32
        }
    }

    /// Reads two little-endian bytes as a signed 16-bit integer.
    fn read_i16le(&mut self) -> (v: i16)
        requires
            old(self).wf(),
            old(self).pos + 2 <= old(self).input@.len(),
        ensures
            final(self).wf(),
            final(self).input == old(self).input,
            final(self).object_cache == old(self).object_cache,
            final(self).symbol_cache == old(self).symbol_cache,
            final(self).diagnostics == old(self).diagnostics,
            v == sd_i16_at(old(self).input@, old(self).st().pos),
            final(self).st() == (SpecState { pos: old(self).st().pos + 2, ..old(self).st() }),
    {
        let nlen: usize = self.input.len();
        let p: usize = self.pos;
        let m: u32 = (self.input[p] as u32) + 256 * (self.input[p + 1] as u32);
        self.pos = p + 2;
        proof {
            let i = old(self).input@;
            let pi = p as int;
            let q = pi + 2;
            lemma_le_val_step(i, pi, q);
            lemma_le_val_step(i, pi + 1, q);
            assert(le_val(i.subrange(q, q)) == 0);
            lemma_le_val_bound(i.subrange(pi, q));
            lemma_pow256_small();
        }
        if m >= 0x8000 {
            ((m as i32) - 0x1_0000) as i16
        } else {
            m as i16
        }
    }

    /// Reads a Fixnum length and then that many raw bytes.
    fn read_len_bytes(&mut self) -> (r: Result<Vec<u8>, DecodeError>)
        requires
            old(self).wf(),
        ensures
            final(self).wf(),
            final(self).input == old(self).input,
            final(self).object_cache == old(self).object_cache,
            final(self).symbol_cache == old(self).symbol_cache,
            final(self).diagnostics == old(self).diagnostics,
            match r {
                Ok(b) => sd_len_bytes(old(self).input@, old(self).st().pos) == Ok::<
                    (Seq<u8>, int),
                    SpecError,
                >((b@, final(self).st().pos)) && final(self).st() == (SpecState {
                    pos: final(self).st().pos,
                    ..old(self).st()
                }) && final(self).pos >= b@.len(),
                Err(e) => sd_len_bytes(old(self).input@, old(self).st().pos) == Err::<
                    (Seq<u8>, int),
                    SpecError,
                >(e@),
            },
    {
        let len: i32 = match self.handle_fixnum() {
            Ok(v) => v,
            Err(e) => return Err(e),
        };
        if len < 0 {
            return Err(DecodeError { kind: ErrorKind::UnexpectedEof, offset: self.pos });
        }
        match self.read_exact(len as usize) {
            Ok(b) => Ok(b),
            Err(e) => Err(e),
        }
    }

    /// The body of a fresh symbol, after its `:` tag: length-prefixed
    /// bytes, UTF-8-checked and interned.
    fn handle_symbol(&mut self) -> (r: Result<Vec<u8>, DecodeError>)
        requires
            old(self).wf(),
        ensures
            final(self).wf(),
            final(self).input == old(self).input,
            old(self).object_cache@.len() <= final(self).object_cache@.len(),
            old(self).symbol_cache@.len() <= final(self).symbol_cache@.len(),
            match r {
                Ok(b) => sd_sym_new(old(self).input@, old(self).st()) == Ok::<
                    (Seq<u8>, SpecState),
                    SpecError,
                >((b@, final(self).st())),
                Err(e) => sd_sym_new(old(self).input@, old(self).st()) == Err::<
                    (Seq<u8>, SpecState),
                    SpecError,
                >(e@),
            },
    {
        let bytes: Vec<u8> = match self.read_len_bytes() {
            Ok(b) => b,
            Err(e) => return Err(e),
        };
        let start: usize = self.pos - bytes.len();
        if !check_utf8(&bytes) {
            return Err(DecodeError { kind: ErrorKind::InvalidUtf8, offset: start });
        }
        let copy = copy_bytes(&bytes);
        self.intern_symbol(copy);
        Ok(bytes)
    }

    /// The body of a symbol back-reference, after its `;` tag: a
    /// bounds-checked index into the symbol cache, and the bytes it resolves
    /// to.
    fn handle_symlink(&mut self) -> (r: Result<(usize, Vec<u8>), DecodeError>)
        requires
            old(self).wf(),
        ensures
            final(self).wf(),
            final(self).input == old(self).input,
            final(self).object_cache == old(self).object_cache,
            final(self).symbol_cache == old(self).symbol_cache,
            final(self).diagnostics == old(self).diagnostics,
            match r {
                Ok(p) => sd_sym_ref(old(self).input@, old(self).st()) == Ok::<
                    ((usize, Seq<u8>), SpecState),
                    SpecError,
                >(((p.0, p.1@), final(self).st())),
                Err(e) => sd_sym_ref(old(self).input@, old(self).st()) == Err::<
                    ((usize, Seq<u8>), SpecState),
                    SpecError,
                >(e@),
            },
    {
        let fix_pos: usize = self.pos;
        let idx: i32 = match self.handle_fixnum() {
            Ok(v) => v,
            Err(e) => return Err(e),
        };
        if idx < 0 || (idx as usize) >= self.symbol_cache.len() {
            return Err(
                DecodeError { kind: ErrorKind::SymlinkIndexOutOfRange, offset: fix_pos },
            );
        }
        let b = copy_bytes(&self.symbol_cache[idx as usize]);
        proof {
            assert(syms_view(self.symbol_cache@)[idx as int] == self.symbol_cache@[idx as int]@);
        }
        Ok((idx as usize, b))
    }

    /// A symbol in name position: `:` or `;`, anything else is an unknown
    /// tag here.
    fn decode_symbol(&mut self) -> (r: Result<Vec<u8>, DecodeError>)
        requires
            old(self).wf(),
        ensures
            final(self).wf(),
            final(self).input == old(self).input,
            old(self).object_cache@.len() <= final(self).object_cache@.len(),
            old(self).symbol_cache@.len() <= final(self).symbol_cache@.len(),
            match r {
                Ok(b) => sd_symbol(old(self).input@, old(self).st()) == Ok::<
                    (Seq<u8>, SpecState),
                    SpecError,
                >((b@, final(self).st())),
                Err(e) => sd_symbol(old(self).input@, old(self).st()) == Err::<
                    (Seq<u8>, SpecState),
                    SpecError,
                >(e@),
            },
    {
        let tag_pos: usize = self.pos;
        let tag: u8 = match self.read_byte() {
            Ok(t) => t,
            Err(e) => return Err(e),
        };
        if tag == 0x3A {
            self.handle_symbol()
        } else if tag == 0x3B {
            match self.handle_symlink() {
                Ok(p) => Ok(p.1),
                Err(e) => Err(e),
            }
        } else {
            Err(DecodeError { kind: ErrorKind::UnknownTypeTag(tag), offset: tag_pos })
        }
    }

    /// The body of an object back-reference, after its `@` tag: a
    /// bounds-checked `Link`.
    fn handle_link(&mut self) -> (r: Result<Value, DecodeError>)
        requires
            old(self).wf(),
        ensures
            final(self).wf(),
            final(self).input == old(self).input,
            final(self).object_cache == old(self).object_cache,
            final(self).symbol_cache == old(self).symbol_cache,
            final(self).diagnostics == old(self).diagnostics,
            match r {
                Ok(v) => sd_link(old(self).input@, old(self).st()) == Ok::<
                    (SpecValue, SpecState),
                    SpecError,
                >((v@, final(self).st())),
                Err(e) => sd_link(old(self).input@, old(self).st()) == Err::<
                    (SpecValue, SpecState),
                    SpecError,
                >(e@),
            },
    {
        let fix_pos: usize = self.pos;
        let idx: i32 = match self.handle_fixnum() {
            Ok(v) => v,
            Err(e) => return Err(e),
        };
        if idx < 0 || (idx as usize) >= self.object_cache.len() {
            return Err(DecodeError { kind: ErrorKind::LinkIndexOutOfRange, offset: fix_pos });
        }
        Ok(Value::Link(idx as usize))
    }

    /// The body of a byte string, after its `"` tag: length-prefixed raw
    /// bytes, registered in the object cache.
    fn handle_string(&mut self) -> (r: Result<Value, DecodeError>)
        requires
            old(self).wf(),
        ensures
            final(self).wf(),
            final(self).input == old(self).input,
            old(self).object_cache@.len() <= final(self).object_cache@.len(),
            old(self).symbol_cache@.len() <= final(self).symbol_cache@.len(),
            match r {
                Ok(v) => sd_string(old(self).input@, old(self).st()) == Ok::<
                    (SpecValue, SpecState),
                    SpecError,
                >((v@, final(self).st())),
                Err(e) => sd_string(old(self).input@, old(self).st()) == Err::<
                    (SpecValue, SpecState),
                    SpecError,
                >(e@),
            },
    {
        let bytes: Vec<u8> = match self.read_len_bytes() {
            Ok(b) => b,
            Err(e) => return Err(e),
        };
        let v = Value::Str(bytes);
        self.register_object(&v);
        Ok(v)
    }

    /// The body of a float, after its `f` tag: length-prefixed ASCII text,
    /// kept as it stands and registered in the object cache.
    fn handle_float(&mut self) -> (r: Result<Value, DecodeError>)
        requires
            old(self).wf(),
        ensures
            final(self).wf(),
            final(self).input == old(self).input,
            old(self).object_cache@.len() <= final(self).object_cache@.len(),
            old(self).symbol_cache@.len() <= final(self).symbol_cache@.len(),
            match r {
                Ok(v) => sd_float(old(self).input@, old(self).st()) == Ok::<
                    (SpecValue, SpecState),
                    SpecError,
                >((v@, final(self).st())),
                Err(e) => sd_float(old(self).input@, old(self).st()) == Err::<
                    (SpecValue, SpecState),
                    SpecError,
                >(e@),
            },
    {
        let bytes: Vec<u8> = match self.read_len_bytes() {
            Ok(b) => b,
            Err(e) => return Err(e),
        };
        let v = Value::Float(bytes);
        self.register_object(&v);
        Ok(v)
    }

    /// The payload of a Color record: four little-endian doubles, kept as
    /// bit patterns, registered in the object cache.
    fn handle_color(&mut self) -> (r: Result<Value, DecodeError>)
        requires
            old(self).wf(),
        ensures
            final(self).wf(),
            final(self).input == old(self).input,
            old(self).object_cache@.len() <= final(self).object_cache@.len(),
            old(self).symbol_cache@.len() <= final(self).symbol_cache@.len(),
            match r {
                Ok(v) => sd_color(old(self).input@, old(self).st()) == Ok::<
                    (SpecValue, SpecState),
                    SpecError,
                >((v@, final(self).st())),
                Err(e) => sd_color(old(self).input@, old(self).st()) == Err::<
                    (SpecValue, SpecState),
                    SpecError,
                >(e@),
            },
    {
        let nlen: usize = self.input.len();
        if 32 > nlen - self.pos {
            return Err(DecodeError { kind: ErrorKind::UnexpectedEof, offset: self.pos });
        }
        let red: u64 = self.read_u64le();
        let green: u64 = self.read_u64le();
        let blue: u64 = self.read_u64le();
        let alpha: u64 = self.read_u64le();
        let v = Value::Color(Color { red, green, blue, alpha });
        self.register_object(&v);
        Ok(v)
    }

    /// The payload of a Tone record: like a Color, with a gray component.
    fn handle_tone(&mut self) -> (r: Result<Value, DecodeError>)
        requires
            old(self).wf(),
        ensures
            final(self).wf(),
            final(self).input == old(self).input,
            old(self).object_cache@.len() <= final(self).object_cache@.len(),
            old(self).symbol_cache@.len() <= final(self).symbol_cache@.len(),
            match r {
                Ok(v) => sd_tone(old(self).input@, old(self).st()) == Ok::<
                    (SpecValue, SpecState),
                    SpecError,
                >((v@, final(self).st())),
                Err(e) => sd_tone(old(self).input@, old(self).st()) == Err::<
                    (SpecValue, SpecState),
                    SpecError,
                >(e@),
            },
    {
        let nlen: usize = self.input.len();
        if 32 > nlen - self.pos {
            return Err(DecodeError { kind: ErrorKind::UnexpectedEof, offset: self.pos });
        }
        let red: u64 = self.read_u64le();
        let green: u64 = self.read_u64le();
        let blue: u64 = self.read_u64le();
        let gray: u64 = self.read_u64le();
        let v = Value::Tone(Tone { red, green, blue, gray });
        self.register_object(&v);
        Ok(v)
    }

    /// The payload of a Table record: three little-endian dimensions, an
    /// explicit cell count, then that many little-endian 16-bit cells.  The
    /// count is trusted; a mismatch against the dimensions' product is
    /// recorded as a diagnostic, and a negative count reads zero cells.
    fn handle_table(&mut self) -> (r: Result<Value, DecodeError>)
        requires
            old(self).wf(),
        ensures
            final(self).wf(),
            final(self).input == old(self).input,
            old(self).object_cache@.len() <= final(self).object_cache@.len(),
            old(self).symbol_cache@.len() <= final(self).symbol_cache@.len(),
            match r {
                Ok(v) => sd_table(old(self).input@, old(self).st()) == Ok::<
                    (SpecValue, SpecState),
                    SpecError,
                >((v@, final(self).st())),
                Err(e) => sd_table(old(self).input@, old(self).st()) == Err::<
                    (SpecValue, SpecState),
                    SpecError,
                >(e@),
            },
    {
        let ghost inp = self.input@;
        let nlen: usize = self.input.len();
        if 16 > nlen - self.pos {
            return Err(DecodeError { kind: ErrorKind::UnexpectedEof, offset: self.pos });
        }
        let x: i32 = self.read_i32le();
        let y: i32 = self.read_i32le();
        let z: i32 = self.read_i32le();
        let cnt: i32 = self.read_i32le();
        let body: usize = self.pos;
        let cells_n: usize = if cnt > 0 {
            cnt as usize
        } else {
            0
        };
        let need: u64 = 2 * (cells_n as u64);
        if need > (nlen - body) as u64 {
            return Err(DecodeError { kind: ErrorKind::UnexpectedEof, offset: body });
        }
        let mut cells: Vec<i16> = Vec::new();
        for k in 0..cells_n
            invariant
                cells@.len() == k,
                body + 2 * cells_n <= nlen,
                nlen == inp.len(),
                self.input == old(self).input,
                self.input@ == inp,
                self.pos == body + 2 * k,
                self.object_cache == old(self).object_cache,
                self.symbol_cache == old(self).symbol_cache,
                self.diagnostics == old(self).diagnostics,
                forall|j: int| 0 <= j < k ==> cells@[j] == sd_i16_at(inp, body + 2 * j),
        {
            let c: i16 = self.read_i16le();
            cells.push(c);
        }
        // the dimensions' product, exactly, for the mismatch diagnostic
        proof {
            assert((-0x4000_0000_0000_0000 <= (x as int) * (y as int) <= 0x4000_0000_0000_0000)
                && ((x as int) * (y as int) == x as i64 as int * (y as i64 as int))) by (nonlinear_arith)
                requires
                    -0x8000_0000 <= x as int <= 0x7FFF_FFFF,
                    -0x8000_0000 <= y as int <= 0x7FFF_FFFF,
            ;
        }
        let xy: i64 = (x as i64) * (y as i64);
        proof {
            assert(-0x2000_0000_0000_0000_0000_0000 <= (xy as int) * (z as int)
                <= 0x2000_0000_0000_0000_0000_0000) by (nonlinear_arith)
                requires
                    -0x4000_0000_0000_0000 <= xy as int <= 0x4000_0000_0000_0000,
                    -0x8000_0000 <= z as int <= 0x7FFF_FFFF,
            ;
        }
        let xyz: i128 = (xy as i128) * (z as i128);
        if xyz != (cnt as i128) {
            self.diagnostics.push(
                Diagnostic::TableCellCountMismatch { x_size: x, y_size: y, z_size: z, cell_count: cnt },
            );
        }
        let v = Value::Table(Table { x_size: x, y_size: y, z_size: z, data: cells });
        self.register_object(&v);
        proof {
            let exp_cells = Seq::new(cells_n as nat, |i: int| sd_i16_at(inp, body + 2 * i));
            assert(v.sval()->Table_cells =~= exp_cells);
        }
        Ok(v)
    }

    /// The name-dispatch for user-defined records: after the `u` tag (whose
    /// position the caller passes for error reporting), a symbol type name,
    /// a Fixnum payload length read as a sanity bound only, then the record
    /// payload by name.
    fn handle_user_defined(&mut self, tag_pos: usize) -> (r: Result<Value, DecodeError>)
        requires
            old(self).wf(),
        ensures
            final(self).wf(),
            final(self).input == old(self).input,
            old(self).object_cache@.len() <= final(self).object_cache@.len(),
            old(self).symbol_cache@.len() <= final(self).symbol_cache@.len(),
            match r {
                Ok(v) => sd_user(old(self).input@, old(self).st(), tag_pos as int) == Ok::<
                    (SpecValue, SpecState),
                    SpecError,
                >((v@, final(self).st())),
                Err(e) => sd_user(old(self).input@, old(self).st(), tag_pos as int) == Err::<
                    (SpecValue, SpecState),
                    SpecError,
                >(e@),
            },
    {
        let name: Vec<u8> = match self.decode_symbol() {
            Ok(n) => n,
            Err(e) => return Err(e),
        };
        match self.handle_fixnum() {
            Ok(_) => (),
            Err(e) => return Err(e),
        };
        if is_color_name(&name) {
            self.handle_color()
        } else if is_tone_name(&name) {
            self.handle_tone()
        } else if is_table_name(&name) {
            self.handle_table()
        } else {
            Err(
                DecodeError {
                    kind: ErrorKind::UnsupportedUserDefinedType(name),
                    offset: tag_pos,
                },
            )
        }
    }

    /// The body of an array, after its `[` tag: count, slot reservation,
    /// children left to right, slot fill.
    fn handle_array(&mut self, d: u32) -> (r: Result<Value, DecodeError>)
        requires
            old(self).wf(),
        ensures
            final(self).wf(),
            final(self).input == old(self).input,
            old(self).object_cache@.len() <= final(self).object_cache@.len(),
            old(self).symbol_cache@.len() <= final(self).symbol_cache@.len(),
            match r {
                Ok(v) => sd_array(old(self).input@, old(self).st(), d as nat) == Ok::<
                    (SpecValue, SpecState),
                    SpecError,
                >((v@, final(self).st())),
                Err(e) => sd_array(old(self).input@, old(self).st(), d as nat) == Err::<
                    (SpecValue, SpecState),
                    SpecError,
                >(e@),
            },
        decreases d, 1nat,
    {
        let ghost inp = old(self).input@;
        let ghost st0 = old(self).st();
        let n: i32 = match self.handle_fixnum() {
            Ok(v) => v,
            Err(e) => return Err(e),
        };
        if n < 0 {
            return Err(DecodeError { kind: ErrorKind::UnexpectedEof, offset: self.pos });
        }
        let count: usize = n as usize;
        let slot: usize = self.reserve_object_slot();
        let ghost st1 = self.st();
        let mut elems: Vec<Value> = Vec::new();
        proof {
            assert(objs_view(elems@) =~= Seq::<SpecValue>::empty());
            assert(st1 =~= (SpecState {
                pos: st1.pos,
                objs: st0.objs.push(SpecValue::Null),
                ..st0
            }));
        }
        let mut k: usize = 0;
        while k < count
            invariant
                self.wf(),
                self.input == old(self).input,
                self.input@ == inp,
                inp == old(self).input@,
                st0 == old(self).st(),
                k <= count,
                elems@.len() == k,
                slot < self.object_cache@.len(),
                slot == st0.objs.len(),
                old(self).object_cache@.len() <= self.object_cache@.len(),
                old(self).symbol_cache@.len() <= self.symbol_cache@.len(),
                match sd_elems(inp, self.st(), objs_view(elems@), (count - k) as nat, d as nat) {
                    Ok(p) => sd_array(inp, st0, d as nat) == Ok::<(SpecValue, SpecState), SpecError>(
                        (
                            SpecValue::Array(p.0),
                            SpecState {
                                objs: p.1.objs.update(slot as int, SpecValue::Array(p.0)),
                                ..p.1
                            },
                        ),
                    ),
                    Err(e) => sd_array(inp, st0, d as nat) == Err::<
                        (SpecValue, SpecState),
                        SpecError,
                    >(e),
                },
            decreases count - k,
        {
            let ghost st_cur = self.st();
            let ghost acc_cur = objs_view(elems@);
            let ghost m = (count - k) as nat;
            let child: Value = match self.parse(d) {
                Ok(v) => v,
                Err(e) => {
                    proof {
                        assert(sd_elems(inp, st_cur, acc_cur, m, d as nat) == Err::<
                            (Seq<SpecValue>, SpecState),
                            SpecError,
                        >(e@));
                    }
                    return Err(e);
                },
            };
            let ghost elems_pre = elems@;
            elems.push(child);
            k = k + 1;
            proof {
                lemma_objs_view_push(elems_pre, child);
                assert(sd_elems(inp, st_cur, acc_cur, m, d as nat) == sd_elems(
                    inp,
                    self.st(),
                    objs_view(elems@),
                    (count - k) as nat,
                    d as nat,
                ));
            }
        }
        let value = Value::Array(elems);
        self.fill_object_slot(slot, &value);
        proof {
            lemma_array_sval(value->Array_0);
        }
        Ok(value)
    }

    /// The body of a hash, after its `{` tag: count, slot reservation, `n`
    /// pairs whose keys must be Fixnum tags, slot fill.  Duplicate keys
    /// overwrite in place.
    fn handle_hash(&mut self, d: u32) -> (r: Result<Value, DecodeError>)
        requires
            old(self).wf(),
        ensures
            final(self).wf(),
            final(self).input == old(self).input,
            old(self).object_cache@.len() <= final(self).object_cache@.len(),
            old(self).symbol_cache@.len() <= final(self).symbol_cache@.len(),
            match r {
                Ok(v) => sd_hash(old(self).input@, old(self).st(), d as nat) == Ok::<
                    (SpecValue, SpecState),
                    SpecError,
                >((v@, final(self).st())),
                Err(e) => sd_hash(old(self).input@, old(self).st(), d as nat) == Err::<
                    (SpecValue, SpecState),
                    SpecError,
                >(e@),
            },
        decreases d, 1nat,
    {
        let ghost inp = old(self).input@;
        let ghost st0 = old(self).st();
        let n: i32 = match self.handle_fixnum() {
            Ok(v) => v,
            Err(e) => return Err(e),
        };
        if n < 0 {
            return Err(DecodeError { kind: ErrorKind::UnexpectedEof, offset: self.pos });
        }
        let count: usize = n as usize;
        let slot: usize = self.reserve_object_slot();
        let ghost st1 = self.st();
        let mut pairs: Vec<(i32, Value)> = Vec::new();
        proof {
            assert(pairs_view(pairs@) =~= Seq::<(i32, SpecValue)>::empty());
            assert(st1 =~= (SpecState {
                pos: st1.pos,
                objs: st0.objs.push(SpecValue::Null),
                ..st0
            }));
        }
        let mut k: usize = 0;
        while k < count
            invariant
                self.wf(),
                self.input == old(self).input,
                self.input@ == inp,
                inp == old(self).input@,
                st0 == old(self).st(),
                k <= count,
                slot < self.object_cache@.len(),
                slot == st0.objs.len(),
                old(self).object_cache@.len() <= self.object_cache@.len(),
                old(self).symbol_cache@.len() <= self.symbol_cache@.len(),
                match sd_pairs(inp, self.st(), pairs_view(pairs@), (count - k) as nat, d as nat) {
                    Ok(p) => sd_hash(inp, st0, d as nat) == Ok::<(SpecValue, SpecState), SpecError>(
                        (
                            SpecValue::Hash(p.0),
                            SpecState {
                                objs: p.1.objs.update(slot as int, SpecValue::Hash(p.0)),
                                ..p.1
                            },
                        ),
                    ),
                    Err(e) => sd_hash(inp, st0, d as nat) == Err::<
                        (SpecValue, SpecState),
                        SpecError,
                    >(e),
                },
            decreases count - k,
        {
            let ghost st_cur = self.st();
            let ghost acc_cur = pairs_view(pairs@);
            let ghost m = (count - k) as nat;
            let key_pos: usize = self.pos;
            let kt: u8 = match self.read_byte() {
                Ok(t) => t,
                Err(e) => {
                    proof {
                        assert(sd_pairs(inp, st_cur, acc_cur, m, d as nat) == Err::<
                            (Seq<(i32, SpecValue)>, SpecState),
                            SpecError,
                        >(e@));
                    }
                    return Err(e);
                },
            };
            if kt != 0x69 {
                let e = DecodeError { kind: ErrorKind::HashKeyNotInteger, offset: key_pos };
                proof {
                    assert(sd_pairs(inp, st_cur, acc_cur, m, d as nat) == Err::<
                        (Seq<(i32, SpecValue)>, SpecState),
                        SpecError,
                    >(e@));
                }
                return Err(e);
            }
            let key: i32 = match self.handle_fixnum() {
                Ok(v) => v,
                Err(e) => {
                    proof {
                        assert(sd_pairs(inp, st_cur, acc_cur, m, d as nat) == Err::<
                            (Seq<(i32, SpecValue)>, SpecState),
                            SpecError,
                        >(e@));
                    }
                    return Err(e);
                },
            };
            proof {
                assert(self.st() =~= (SpecState { pos: self.st().pos, ..st_cur }));
            }
            let val: Value = match self.parse(d) {
                Ok(v) => v,
                Err(e) => {
                    proof {
                        assert(sd_pairs(inp, st_cur, acc_cur, m, d as nat) == Err::<
                            (Seq<(i32, SpecValue)>, SpecState),
                            SpecError,
                        >(e@));
                    }
                    return Err(e);
                },
            };
            hash_insert_pair(&mut pairs, key, val);
            k = k + 1;
            proof {
                assert(sd_pairs(inp, st_cur, acc_cur, m, d as nat) == sd_pairs(
                    inp,
                    self.st(),
                    pairs_view(pairs@),
                    (count - k) as nat,
                    d as nat,
                ));
            }
        }
        let value = Value::Hash(pairs);
        self.fill_object_slot(slot, &value);
        proof {
            lemma_hash_sval(value->Hash_0);
        }
        Ok(value)
    }

    /// The body of a generic object, after its `o` tag: a symbol class
    /// name, a count, slot reservation, then `n` sentinel-checked
    /// `(symbol, value)` pairs in order (duplicates retained), slot fill.
    fn handle_object(&mut self, d: u32) -> (r: Result<Value, DecodeError>)
        requires
            old(self).wf(),
        ensures
            final(self).wf(),
            final(self).input == old(self).input,
            old(self).object_cache@.len() <= final(self).object_cache@.len(),
            old(self).symbol_cache@.len() <= final(self).symbol_cache@.len(),
            match r {
                Ok(v) => sd_object(old(self).input@, old(self).st(), d as nat) == Ok::<
                    (SpecValue, SpecState),
                    SpecError,
                >((v@, final(self).st())),
                Err(e) => sd_object(old(self).input@, old(self).st(), d as nat) == Err::<
                    (SpecValue, SpecState),
                    SpecError,
                >(e@),
            },
        decreases d, 1nat,
    {
        let ghost inp = old(self).input@;
        let ghost st0 = old(self).st();
        let name: Vec<u8> = match self.decode_symbol() {
            Ok(b) => b,
            Err(e) => return Err(e),
        };
        let ghost name_spec = name@;
        let n: i32 = match self.handle_fixnum() {
            Ok(v) => v,
            Err(e) => return Err(e),
        };
        if n < 0 {
            return Err(DecodeError { kind: ErrorKind::UnexpectedEof, offset: self.pos });
        }
        let count: usize = n as usize;
        let slot: usize = self.reserve_object_slot();
        let mut list: Vec<(Vec<u8>, Value)> = Vec::new();
        proof {
            assert(ivars_view(list@) =~= Seq::<(Seq<u8>, SpecValue)>::empty());
        }
        let mut k: usize = 0;
        while k < count
            invariant
                self.wf(),
                self.input == old(self).input,
                self.input@ == inp,
                inp == old(self).input@,
                st0 == old(self).st(),
                k <= count,
                slot < self.object_cache@.len(),
                old(self).object_cache@.len() <= self.object_cache@.len(),
                old(self).symbol_cache@.len() <= self.symbol_cache@.len(),
                match sd_ivars(inp, self.st(), ivars_view(list@), (count - k) as nat, d as nat) {
                    Ok(p) => sd_object(inp, st0, d as nat) == Ok::<
                        (SpecValue, SpecState),
                        SpecError,
                    >(
                        (
                            SpecValue::Object { name: name_spec, ivars: p.0 },
                            SpecState {
                                objs: p.1.objs.update(
                                    slot as int,
                                    SpecValue::Object { name: name_spec, ivars: p.0 },
                                ),
                                ..p.1
                            },
                        ),
                    ),
                    Err(e) => sd_object(inp, st0, d as nat) == Err::<
                        (SpecValue, SpecState),
                        SpecError,
                    >(e),
                },
            decreases count - k,
        {
            let ghost st_cur = self.st();
            let ghost acc_cur = ivars_view(list@);
            let ghost m = (count - k) as nat;
            let key_pos: usize = self.pos;
            let key: Vec<u8> = match self.decode_symbol() {
                Ok(b) => b,
                Err(e) => {
                    proof {
                        assert(sd_ivars(inp, st_cur, acc_cur, m, d as nat) == Err::<
                            (Seq<(Seq<u8>, SpecValue)>, SpecState),
                            SpecError,
                        >(e@));
                    }
                    return Err(e);
                },
            };
            if !(key.len() >= 1 && key[0] == 0x40) {
                let e = DecodeError {
                    kind: ErrorKind::ObjectKeyNotInstanceVariable,
                    offset: key_pos,
                };
                proof {
                    assert(sd_ivars(inp, st_cur, acc_cur, m, d as nat) == Err::<
                        (Seq<(Seq<u8>, SpecValue)>, SpecState),
                        SpecError,
                    >(e@));
                }
                return Err(e);
            }
            let val: Value = match self.parse(d) {
                Ok(v) => v,
                Err(e) => {
                    proof {
                        assert(sd_ivars(inp, st_cur, acc_cur, m, d as nat) == Err::<
                            (Seq<(Seq<u8>, SpecValue)>, SpecState),
                            SpecError,
                        >(e@));
                    }
                    return Err(e);
                },
            };
            let ghost list_pre = list@;
            let ghost key_spec = key@;
            list.push((key, val));
            k = k + 1;
            proof {
                lemma_ivars_view_push(list_pre, list@.last().0, val);
                assert(list@.last().0@ == key_spec);
                assert(sd_ivars(inp, st_cur, acc_cur, m, d as nat) == sd_ivars(
                    inp,
                    self.st(),
                    ivars_view(list@),
                    (count - k) as nat,
                    d as nat,
                ));
            }
        }
        let obj = Object { name, list };
        let value = Value::Object(obj);
        self.fill_object_slot(slot, &value);
        proof {
            lemma_object_sval(value->Object_0);
        }
        Ok(value)
    }

    /// The body of an `I` wrapper: the wrapped value, then `n` discarded
    /// `(symbol, value)` metadata pairs whose cache effects are kept.
    fn handle_ivar(&mut self, d: u32) -> (r: Result<Value, DecodeError>)
        requires
            old(self).wf(),
        ensures
            final(self).wf(),
            final(self).input == old(self).input,
            old(self).object_cache@.len() <= final(self).object_cache@.len(),
            old(self).symbol_cache@.len() <= final(self).symbol_cache@.len(),
            match r {
                Ok(v) => sd_ivar_wrap(old(self).input@, old(self).st(), d as nat) == Ok::<
                    (SpecValue, SpecState),
                    SpecError,
                >((v@, final(self).st())),
                Err(e) => sd_ivar_wrap(old(self).input@, old(self).st(), d as nat) == Err::<
                    (SpecValue, SpecState),
                    SpecError,
                >(e@),
            },
        decreases d, 1nat,
    {
        let ghost inp = old(self).input@;
        let ghost st0 = old(self).st();
        let wrapped: Value = match self.parse(d) {
            Ok(v) => v,
            Err(e) => return Err(e),
        };
        let n: i32 = match self.handle_fixnum() {
            Ok(v) => v,
            Err(e) => return Err(e),
        };
        if n < 0 {
            return Err(DecodeError { kind: ErrorKind::UnexpectedEof, offset: self.pos });
        }
        let count: usize = n as usize;
        let mut k: usize = 0;
        while k < count
            invariant
                self.wf(),
                self.input == old(self).input,
                self.input@ == inp,
                inp == old(self).input@,
                st0 == old(self).st(),
                k <= count,
                old(self).object_cache@.len() <= self.object_cache@.len(),
                old(self).symbol_cache@.len() <= self.symbol_cache@.len(),
                match sd_meta(inp, self.st(), (count - k) as nat, d as nat) {
                    Ok(stf) => sd_ivar_wrap(inp, st0, d as nat) == Ok::<
                        (SpecValue, SpecState),
                        SpecError,
                    >((wrapped@, stf)),
                    Err(e) => sd_ivar_wrap(inp, st0, d as nat) == Err::<
                        (SpecValue, SpecState),
                        SpecError,
                    >(e),
                },
            decreases count - k,
        {
            let ghost st_cur = self.st();
            let ghost m = (count - k) as nat;
            match self.decode_symbol() {
                Ok(_) => (),
                Err(e) => {
                    proof {
                        assert(sd_meta(inp, st_cur, m, d as nat) == Err::<SpecState, SpecError>(
                            e@,
                        ));
                    }
                    return Err(e);
                },
            };
            match self.parse(d) {
                Ok(_) => (),
                Err(e) => {
                    proof {
                        assert(sd_meta(inp, st_cur, m, d as nat) == Err::<SpecState, SpecError>(
                            e@,
                        ));
                    }
                    return Err(e);
                },
            };
            k = k + 1;
            proof {
                assert(sd_meta(inp, st_cur, m, d as nat) == sd_meta(
                    inp,
                    self.st(),
                    (count - k) as nat,
                    d as nat,
                ));
            }
        }
        Ok(wrapped)
    }

    /// The dispatcher: reads one type tag and decodes one complete value,
    /// agreeing exactly with the model's `sd_value`.  `depth` is the
    /// remaining nesting budget.
    pub fn parse(&mut self, depth: u32) -> (r: Result<Value, DecodeError>)
        requires
            old(self).wf(),
        ensures
            final(self).wf(),
            final(self).input == old(self).input,
            old(self).object_cache@.len() <= final(self).object_cache@.len(),
            old(self).symbol_cache@.len() <= final(self).symbol_cache@.len(),
            match r {
                Ok(v) => sd_value(old(self).input@, old(self).st(), depth as nat) == Ok::<
                    (SpecValue, SpecState),
                    SpecError,
                >((v@, final(self).st())),
                Err(e) => sd_value(old(self).input@, old(self).st(), depth as nat) == Err::<
                    (SpecValue, SpecState),
                    SpecError,
                >(e@),
            },
        decreases depth, 0nat,
    {
        if depth == 0 {
            return Err(DecodeError { kind: ErrorKind::ResourceLimitExceeded, offset: self.pos });
        }
        let ghost st0 = self.st();
        let tag_pos: usize = self.pos;
        let tag: u8 = match self.read_byte() {
            Ok(t) => t,
            Err(e) => return Err(e),
        };
        let ghost st1 = self.st();
        proof {
            assert(st1 =~= (SpecState { pos: st0.pos + 1, ..st0 }));
        }
        if tag == 0x30 {
            Ok(Value::Null)
        } else if tag == 0x54 {
            Ok(Value::Bool(true))
        } else if tag == 0x46 {
            Ok(Value::Bool(false))
        } else if tag == 0x69 {
            match self.handle_fixnum() {
                Ok(v) => {
                    proof {
                        assert(self.st() =~= (SpecState { pos: self.st().pos, ..st0 }));
                    }
                    Ok(Value::Int(v))
                },
                Err(e) => Err(e),
            }
        } else if tag == 0x66 {
            self.handle_float()
        } else if tag == 0x22 {
            self.handle_string()
        } else if tag == 0x3A {
            match self.handle_symbol() {
                Ok(b) => Ok(Value::Symbol(b)),
                Err(e) => Err(e),
            }
        } else if tag == 0x3B {
            match self.handle_symlink() {
                Ok(p) => Ok(Value::Symlink(p.0)),
                Err(e) => Err(e),
            }
        } else if tag == 0x40 {
            self.handle_link()
        } else if tag == 0x5B {
            self.handle_array(depth - 1)
        } else if tag == 0x7B {
            self.handle_hash(depth - 1)
        } else if tag == 0x6F {
            self.handle_object(depth - 1)
        } else if tag == 0x49 {
            self.handle_ivar(depth - 1)
        } else if tag == 0x75 {
            self.handle_user_defined(tag_pos)
        } else {
            Err(DecodeError { kind: ErrorKind::UnknownTypeTag(tag), offset: tag_pos })
        }
    }
}

/// Inserts a pair into an ordered key-unique pair list: a present key's
/// value is overwritten in place, a new key is appended.
fn hash_insert_pair(pairs: &mut Vec<(i32, Value)>, k: i32, v: Value)
    ensures
        pairs_view(final(pairs)@) == spec_hash_insert(pairs_view(old(pairs)@), k, v.sval()),
{
    let n: usize = pairs.len();
    let mut j: usize = 0;
    while j < n
        invariant
            n == pairs@.len(),
            *pairs == *old(pairs),
            j <= n,
            forall|t: int| 0 <= t < j ==> pairs@[t].0 != k,
        decreases n - j,
    {
        if pairs[j].0 == k {
            proof {
                lemma_find_key(pairs_view(pairs@), k);
                assert(pairs_view(pairs@)[j as int].0 == k);
                lemma_pairs_view_update(pairs@, j as int, k, v);
            }
            pairs.set(j, (k, v));
            return;
        }
        j = j + 1;
    }
    proof {
        lemma_find_key(pairs_view(pairs@), k);
        lemma_pairs_view_push(pairs@, k, v);
    }
    pairs.push((k, v));
}


/// The nesting-depth budget for one decode: deeper structures fail with
/// `ResourceLimitExceeded` instead of exhausting the call stack.
pub const MAX_DEPTH: u32 = 512;

/// What a whole decode returns in the model: the root value and the final
/// caches and diagnostics.
#[verifier::ext_equal]
pub struct SpecDecoded {
    pub root: SpecValue,
    pub objects: Seq<SpecValue>,
    pub symbols: Seq<Seq<u8>>,
    pub diagnostics: Seq<Diagnostic>,
}

/// Decoding a whole input in the model: one root value from position zero
/// with empty caches and the full depth budget.
pub open spec fn spec_decode(input: Seq<u8>) -> Result<SpecDecoded, SpecError> {
    match sd_value(input, SpecState::init(), MAX_DEPTH as nat) {
        Err(e) => Err(e),
        Ok((root, st)) => Ok(
            SpecDecoded { root, objects: st.objs, symbols: st.syms, diagnostics: st.diags },
        ),
    }
}

/// A fully decoded stream: the root value, the two caches the returned
/// graph's `Link` and `Symlink` indices point into, and the diagnostics.
#[derive(Debug, PartialEq, Eq)]
pub struct Decoded {
    /// The root value.
    pub root: Value,
    /// The object cache: slot `i` is the value `Link(i)` refers to.
    pub objects: Vec<Value>,
    /// The symbol cache: slot `i` is the symbol `Symlink(i)` refers to.
    pub symbols: Vec<Vec<u8>>,
    /// Non-fatal observations, in the order they were made.
    pub diagnostics: Vec<Diagnostic>,
}

impl View for Decoded {
    type V = SpecDecoded;

    open spec fn view(&self) -> SpecDecoded {
        SpecDecoded {
            root: self.root.sval(),
            objects: objs_view(self.objects@),
            symbols: syms_view(self.symbols@),
            diagnostics: self.diagnostics@,
        }
    }
}

impl Decoded {
    /// Bounds-checked lookup of an object-cache slot, as a `Link` names it.
    pub fn resolve_link(&self, index: usize) -> (r: Option<&Value>)
        ensures
            match r {
                Some(v) => index < self.objects@.len() && v.sval() == self@.objects[index as int],
                None => index >= self.objects@.len(),
            },
    {
        if index < self.objects.len() {
            Some(&self.objects[index])
        } else {
            None
        }
    }

    /// Bounds-checked lookup of a symbol-cache slot, as a `Symlink` names
    /// it.
    pub fn resolve_symlink(&self, index: usize) -> (r: Option<&Vec<u8>>)
        ensures
            match r {
                Some(b) => index < self.symbols@.len() && b@ == self@.symbols[index as int],
                None => index >= self.symbols@.len(),
            },
    {
        if index < self.symbols.len() {
            Some(&self.symbols[index])
        } else {
            None
        }
    }
}

/// Decodes one complete value from `input`: the root value plus the caches
/// its back-references point into and the diagnostics gathered, or the
/// error the model prescribes.  Trailing bytes after the root value are not
/// read.
pub fn decode(input: Vec<u8>) -> (r: Result<Decoded, DecodeError>)
    ensures
        match r {
            Ok(d) => spec_decode(input@) == Ok::<SpecDecoded, SpecError>(d@),
            Err(e) => spec_decode(input@) == Err::<SpecDecoded, SpecError>(e@),
        },
{
    let mut reader = Reader::new(input);
    match reader.parse(MAX_DEPTH) {
        Ok(root) => {
            let d = Decoded {
                root,
                objects: reader.object_cache,
                symbols: reader.symbol_cache,
                diagnostics: reader.diagnostics,
            };
            Ok(d)
        },
        Err(e) => Err(e),
    }
}

/// Is `b` the Color record's name?
fn is_color_name(b: &Vec<u8>) -> (r: bool)
    ensures
        r == (b@ == color_name()),
{
    if b.len() != 5 {
        proof {
            assert(color_name().len() == 5);
        }
        return false;
    }
    let ok: bool = b[0] == 0x43 && b[1] == 0x6F && b[2] == 0x6C && b[3] == 0x6F && b[4] == 0x72;
    proof {
        if ok {
            assert(b@ =~= color_name());
        } else {
            if b@ == color_name() {
                assert(b@[0] == 0x43 && b@[1] == 0x6F && b@[2] == 0x6C && b@[3] == 0x6F
                    && b@[4] == 0x72);
            }
        }
    }
    ok
}

/// Is `b` the Tone record's name?
fn is_tone_name(b: &Vec<u8>) -> (r: bool)
    ensures
        r == (b@ == tone_name()),
{
    if b.len() != 4 {
        proof {
            assert(tone_name().len() == 4);
        }
        return false;
    }
    let ok: bool = b[0] == 0x54 && b[1] == 0x6F && b[2] == 0x6E && b[3] == 0x65;
    proof {
        if ok {
            assert(b@ =~= tone_name());
        } else {
            if b@ == tone_name() {
                assert(b@[0] == 0x54 && b@[1] == 0x6F && b@[2] == 0x6E && b@[3] == 0x65);
            }
        }
    }
    ok
}

/// Is `b` the Table record's name?
fn is_table_name(b: &Vec<u8>) -> (r: bool)
    ensures
        r == (b@ == table_name()),
{
    if b.len() != 5 {
        proof {
            assert(table_name().len() == 5);
        }
        return false;
    }
    let ok: bool = b[0] == 0x54 && b[1] == 0x61 && b[2] == 0x62 && b[3] == 0x6C && b[4] == 0x65;
    proof {
        if ok {
            assert(b@ =~= table_name());
        } else {
            if b@ == table_name() {
                assert(b@[0] == 0x54 && b@[1] == 0x61 && b@[2] == 0x62 && b@[3] == 0x6C
                    && b@[4] == 0x65);
            }
        }
    }
    ok
}

} // verus!
