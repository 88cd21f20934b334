//! The data model: a closed tagged union of every value the decoder can
//! produce, together with its mathematical view.
//!
//! Floating-point payloads are kept in integer form: a `Float` value holds the
//! raw ASCII text exactly as it stood in the stream, and the `Color` and
//! `Tone` records hold the IEEE-754 bit patterns of their four little-endian
//! doubles.  Callers that want machine floats convert these plain values
//! outside the library.

use vstd::prelude::*;

verus! {

broadcast use vstd::std_specs::vec::axiom_vec_decreases_to_view, vstd::seq::axiom_seq_index_decreases;

/// A color record: four IEEE-754 double bit patterns, in stream order
/// `red, green, blue, alpha`.
#[derive(Debug, Clone, Copy, PartialEq, Eq)]
pub struct Color {
    pub red: u64,
    pub green: u64,
    pub blue: u64,
    pub alpha: u64,
}

/// A tone record: four IEEE-754 double bit patterns, in stream order
/// `red, green, blue, gray`.
#[derive(Debug, Clone, Copy, PartialEq, Eq)]
pub struct Tone {
    pub red: u64,
    pub green: u64,
    pub blue: u64,
    pub gray: u64,
}

/// A three-dimensional tile table: three signed dimensions and a flattened
/// cell array whose length follows the stream's explicit cell count, which
/// need not equal `x_size * y_size * z_size`.
#[derive(Debug, PartialEq, Eq)]
pub struct Table {
    pub x_size: i32,
    pub y_size: i32,
    pub z_size: i32,
    pub data: Vec<i16>,
}

/// A non-fatal structural observation made while decoding.
#[derive(Debug, Clone, Copy, PartialEq, Eq, Structural)]
pub enum Diagnostic {
    /// A table whose explicit cell count differs from the product of its
    /// three dimensions; the explicit count was trusted.
    TableCellCountMismatch { x_size: i32, y_size: i32, z_size: i32, cell_count: i32 },
}

/// A generic object: a class name and its instance variables as an ordered
/// list of `(name, value)` pairs; order is preserved and duplicate names are
/// retained.
#[derive(Debug, PartialEq, Eq)]
pub struct Object {
    pub name: Vec<u8>,
    pub list: Vec<(Vec<u8>, Value)>,
}

/// A class name with an ordered list of bare values (no variable names).
#[derive(Debug, PartialEq, Eq)]
pub struct PureObject {
    pub name: Vec<u8>,
    pub list: Vec<Value>,
}

/// One decoded value.  Reference-bearing values are also registered in the
/// object cache as they are decoded; `Link` and `Symlink` carry the index of
/// an object-cache or symbol-cache slot respectively.
#[derive(Debug, PartialEq, Eq)]
pub enum Value {
    /// The nil marker.
    Null,
    /// A boolean.
    Bool(bool),
    /// A signed 32-bit integer (the format's "Fixnum").
    Int(i32),
    /// A float, kept as the raw ASCII text from the stream
    /// (`"nan"`, `"inf"`, `"-inf"`, or decimal text).
    Float(Vec<u8>),
    /// A raw byte string; no encoding is assumed.
    Str(Vec<u8>),
    /// An interned symbol; its bytes are valid UTF-8.
    Symbol(Vec<u8>),
    /// An ordered sequence of values.
    Array(Vec<Value>),
    /// An integer-keyed hash: keys unique, insertion order preserved.
    Hash(Vec<(i32, Value)>),
    /// A generic object.
    Object(Object),
    /// An engine color record.
    Color(Color),
    /// An engine tone record.
    Tone(Tone),
    /// An engine table record.
    Table(Table),
    /// A back-reference to the object-cache slot with this index.
    Link(usize),
    /// A back-reference to the symbol-cache slot with this index.
    Symlink(usize),
}

/// The mathematical image of a `Value`: the same tree with every vector
/// replaced by a sequence.
#[verifier::ext_equal]
pub enum SpecValue {
    Null,
    Bool(bool),
    Int(i32),
    Float(Seq<u8>),
    Str(Seq<u8>),
    Symbol(Seq<u8>),
    Array(Seq<SpecValue>),
    Hash(Seq<(i32, SpecValue)>),
    Object { name: Seq<u8>, ivars: Seq<(Seq<u8>, SpecValue)> },
    Color { red: u64, green: u64, blue: u64, alpha: u64 },
    Tone { red: u64, green: u64, blue: u64, gray: u64 },
    Table { x: i32, y: i32, z: i32, cells: Seq<i16> },
    Link(usize),
    Symlink(usize),
}

impl Value {
    /// The mathematical view of this value.
    pub open spec fn sval(self) -> SpecValue
        decreases self,
    {
        match self {
            Value::Null => SpecValue::Null,
            Value::Bool(b) => SpecValue::Bool(b),
            Value::Int(i) => SpecValue::Int(i),
            Value::Float(t) => SpecValue::Float(t@),
            Value::Str(b) => SpecValue::Str(b@),
            Value::Symbol(b) => SpecValue::Symbol(b@),
            Value::Array(elems) => SpecValue::Array(
                Seq::new(
                    elems@.len(),
                    |i: int|
                        if 0 <= i < elems@.len() {
                            elems@[i].sval()
                        } else {
                            SpecValue::Null
                        },
                ),
            ),
            Value::Hash(pairs) => SpecValue::Hash(
                Seq::new(
                    pairs@.len(),
                    |i: int|
                        if 0 <= i < pairs@.len() {
                            (pairs@[i].0, pairs@[i].1.sval())
                        } else {
                            (0i32, SpecValue::Null)
                        },
                ),
            ),
            Value::Object(o) => SpecValue::Object {
                name: o.name@,
                ivars: Seq::new(
                    o.list@.len(),
                    |i: int|
                        if 0 <= i < o.list@.len() {
                            (o.list@[i].0@, o.list@[i].1.sval())
                        } else {
                            (Seq::empty(), SpecValue::Null)
                        },
                ),
            },
            Value::Color(c) => SpecValue::Color {
                red: c.red,
                green: c.green,
                blue: c.blue,
                alpha: c.alpha,
            },
            Value::Tone(t) => SpecValue::Tone {
                red: t.red,
                green: t.green,
                blue: t.blue,
                gray: t.gray,
            },
            Value::Table(t) => SpecValue::Table {
                x: t.x_size,
                y: t.y_size,
                z: t.z_size,
                cells: t.data@,
            },
            Value::Link(i) => SpecValue::Link(i),
            Value::Symlink(i) => SpecValue::Symlink(i),
        }
    }
}

impl View for Value {
    type V = SpecValue;

    open spec fn view(&self) -> SpecValue {
        self.sval()
    }
}

/// The views of a sequence of values.
pub open spec fn objs_view(s: Seq<Value>) -> Seq<SpecValue> {
    Seq::new(s.len(), |i: int| s[i].sval())
}

/// The views of a sequence of byte vectors.
pub open spec fn syms_view(s: Seq<Vec<u8>>) -> Seq<Seq<u8>> {
    Seq::new(s.len(), |i: int| s[i]@)
}

/// The views of a sequence of hash pairs.
pub open spec fn pairs_view(s: Seq<(i32, Value)>) -> Seq<(i32, SpecValue)> {
    Seq::new(s.len(), |i: int| (s[i].0, s[i].1.sval()))
}

/// The views of a sequence of instance-variable pairs.
pub open spec fn ivars_view(s: Seq<(Vec<u8>, Value)>) -> Seq<(Seq<u8>, SpecValue)> {
    Seq::new(s.len(), |i: int| (s[i].0@, s[i].1.sval()))
}

pub proof fn lemma_objs_view_push(s: Seq<Value>, v: Value)
    ensures
        objs_view(s.push(v)) == objs_view(s).push(v.sval()),
{
    assert(objs_view(s.push(v)) =~= objs_view(s).push(v.sval()));
}

pub proof fn lemma_objs_view_update(s: Seq<Value>, i: int, v: Value)
    requires
        0 <= i < s.len(),
    ensures
        objs_view(s.update(i, v)) == objs_view(s).update(i, v.sval()),
{
    assert(objs_view(s.update(i, v)) =~= objs_view(s).update(i, v.sval()));
}

pub proof fn lemma_syms_view_push(s: Seq<Vec<u8>>, v: Vec<u8>)
    ensures
        syms_view(s.push(v)) == syms_view(s).push(v@),
{
    assert(syms_view(s.push(v)) =~= syms_view(s).push(v@));
}

pub proof fn lemma_pairs_view_push(s: Seq<(i32, Value)>, k: i32, v: Value)
    ensures
        pairs_view(s.push((k, v))) == pairs_view(s).push((k, v.sval())),
{
    assert(pairs_view(s.push((k, v))) =~= pairs_view(s).push((k, v.sval())));
}

pub proof fn lemma_pairs_view_update(s: Seq<(i32, Value)>, i: int, k: i32, v: Value)
    requires
        0 <= i < s.len(),
    ensures
        pairs_view(s.update(i, (k, v))) == pairs_view(s).update(i, (k, v.sval())),
{
    assert(pairs_view(s.update(i, (k, v))) =~= pairs_view(s).update(i, (k, v.sval())));
}

pub proof fn lemma_ivars_view_push(s: Seq<(Vec<u8>, Value)>, k: Vec<u8>, v: Value)
    ensures
        ivars_view(s.push((k, v))) == ivars_view(s).push((k@, v.sval())),
{
    assert(ivars_view(s.push((k, v))) =~= ivars_view(s).push((k@, v.sval())));
}

/// An array value's view is the array of its elements' views.
pub proof fn lemma_array_sval(elems: Vec<Value>)
    ensures
        Value::Array(elems).sval() == SpecValue::Array(objs_view(elems@)),
{
    assert(Value::Array(elems).sval()->Array_0 =~= objs_view(elems@));
}

/// A hash value's view is the sequence of its pairs' views.
pub proof fn lemma_hash_sval(pairs: Vec<(i32, Value)>)
    ensures
        Value::Hash(pairs).sval() == SpecValue::Hash(pairs_view(pairs@)),
{
    assert(Value::Hash(pairs).sval()->Hash_0 =~= pairs_view(pairs@));
}

/// An object value's view is its name's and pairs' views.
pub proof fn lemma_object_sval(o: Object)
    ensures
        Value::Object(o).sval() == (SpecValue::Object { name: o.name@, ivars: ivars_view(o.list@) }),
{
    assert(Value::Object(o).sval()->Object_ivars =~= ivars_view(o.list@));
}

/// What a float's ASCII text denotes: one of the three special values the
/// format spells out, or ordinary decimal text left to the caller to parse.
#[derive(Debug, Clone, Copy, PartialEq, Eq, Structural)]
pub enum FloatKind {
    /// The literal text `nan`.
    NotANumber,
    /// The literal text `inf`.
    PositiveInfinity,
    /// The literal text `-inf`.
    NegativeInfinity,
    /// Anything else: decimal text.
    Decimal,
}

/// The text `nan`.
pub open spec fn nan_text() -> Seq<u8> {
    seq![0x6Eu8, 0x61u8, 0x6Eu8]
}

/// The text `inf`.
pub open spec fn inf_text() -> Seq<u8> {
    seq![0x69u8, 0x6Eu8, 0x66u8]
}

/// The text `-inf`.
pub open spec fn neg_inf_text() -> Seq<u8> {
    seq![0x2Du8, 0x69u8, 0x6Eu8, 0x66u8]
}

/// How a float's text is to be read.
pub open spec fn spec_float_kind(t: Seq<u8>) -> FloatKind {
    if t == nan_text() {
        FloatKind::NotANumber
    } else if t == inf_text() {
        FloatKind::PositiveInfinity
    } else if t == neg_inf_text() {
        FloatKind::NegativeInfinity
    } else {
        FloatKind::Decimal
    }
}

/// Classifies a float's ASCII text: the three special literals map to their
/// kinds, anything else is decimal text.
pub fn classify_float_text(t: &Vec<u8>) -> (k: FloatKind)
    ensures
        k == spec_float_kind(t@),
{
    if t.len() == 3 && t[0] == 0x6E && t[1] == 0x61 && t[2] == 0x6E {
        proof {
            assert(t@ =~= nan_text());
        }
        FloatKind::NotANumber
    } else if t.len() == 3 && t[0] == 0x69 && t[1] == 0x6E && t[2] == 0x66 {
        proof {
            assert(t@ =~= inf_text());
        }
        FloatKind::PositiveInfinity
    } else if t.len() == 4 && t[0] == 0x2D && t[1] == 0x69 && t[2] == 0x6E && t[3] == 0x66 {
        proof {
            assert(t@ =~= neg_inf_text());
        }
        FloatKind::NegativeInfinity
    } else {
        proof {
            if t@ == nan_text() {
                assert(t@[0] == 0x6E && t@[1] == 0x61 && t@[2] == 0x6E);
            }
            if t@ == inf_text() {
                assert(t@[0] == 0x69 && t@[1] == 0x6E && t@[2] == 0x66);
            }
            if t@ == neg_inf_text() {
                assert(t@[0] == 0x2D && t@[1] == 0x69 && t@[2] == 0x6E && t@[3] == 0x66);
            }
        }
        FloatKind::Decimal
    }
}

/// Copies the bytes of a vector into a fresh vector.
pub fn copy_bytes(src: &Vec<u8>) -> (r: Vec<u8>)
    ensures
        r@ == src@,
{
    let mut r: Vec<u8> = Vec::new();
    for i in 0..src.len()
        invariant
            r@.len() == i,
            forall|j: int| 0 <= j < i ==> r@[j] == src@[j],
    {
        r.push(src[i]);
    }
    proof {
        assert(r@ =~= src@);
    }
    r
}

impl Color {
    /// The engine's default color: fully transparent black with full alpha,
    /// that is red, green and blue zero and alpha one (as IEEE-754 bits).
    pub fn default() -> (r: Color)
        ensures
            r == (Color { red: 0u64, green: 0u64, blue: 0u64, alpha: 0x3FF0000000000000u64 }),
    {
        Color { red: 0, green: 0, blue: 0, alpha: 0x3FF0000000000000 }
    }
}

impl Tone {
    /// The engine's neutral tone: all four components zero.
    pub fn default() -> (r: Tone)
        ensures
            r == (Tone { red: 0u64, green: 0u64, blue: 0u64, gray: 0u64 }),
    {
        Tone { red: 0, green: 0, blue: 0, gray: 0 }
    }
}

impl Table {
    /// An empty table: zero dimensions and no cells.
    pub fn default() -> (r: Table)
        ensures
            r.x_size == 0,
            r.y_size == 0,
            r.z_size == 0,
            r.data@ == Seq::<i16>::empty(),
    {
        Table { x_size: 0, y_size: 0, z_size: 0, data: Vec::new() }
    }

    /// Copies a table, dimensions and cells alike.
    pub fn clone(table: Table) -> (r: Table)
        ensures
            r.x_size == table.x_size,
            r.y_size == table.y_size,
            r.z_size == table.z_size,
            r.data@ == table.data@,
    {
        let mut data: Vec<i16> = Vec::new();
        for i in 0..table.data.len()
            invariant
                data@.len() == i,
                forall|j: int| 0 <= j < i ==> data@[j] == table.data@[j],
        {
            data.push(table.data[i]);
        }
        proof {
            assert(data@ =~= table.data@);
        }
        Table { x_size: table.x_size, y_size: table.y_size, z_size: table.z_size, data }
    }
}

impl Object {
    /// A fresh object with an empty class name and no instance variables.
    pub fn default() -> (r: Object)
        ensures
            r.name@ == Seq::<u8>::empty(),
            r.list@ == Seq::<(Vec<u8>, Value)>::empty(),
    {
        Object { name: Vec::new(), list: Vec::new() }
    }

    /// A fresh empty object, indistinguishable from `Object::default()`.
    pub fn clone() -> (r: Object)
        ensures
            r.name@ == Seq::<u8>::empty(),
            r.list@ == Seq::<(Vec<u8>, Value)>::empty(),
    {
        Object { name: Vec::new(), list: Vec::new() }
    }
}

impl PureObject {
    /// A fresh object with an empty class name and no values.
    pub fn default() -> (r: PureObject)
        ensures
            r.name@ == Seq::<u8>::empty(),
            r.list@ == Seq::<Value>::empty(),
    {
        PureObject { name: Vec::new(), list: Vec::new() }
    }

    /// A fresh empty object, indistinguishable from `PureObject::default()`.
    pub fn clone() -> (r: PureObject)
        ensures
            r.name@ == Seq::<u8>::empty(),
            r.list@ == Seq::<Value>::empty(),
    {
        PureObject { name: Vec::new(), list: Vec::new() }
    }
}

impl Value {
    /// Copies this value, child values and all; the copy has the same
    /// mathematical view.
    #[verifier::loop_isolation(false)]
    pub fn duplicate(&self) -> (r: Value)
        ensures
            r@ == self@,
        decreases *self,
    {
        match self {
            Value::Null => Value::Null,
            Value::Bool(b) => Value::Bool(*b),
            Value::Int(i) => Value::Int(*i),
            Value::Float(t) => Value::Float(copy_bytes(t)),
            Value::Str(b) => Value::Str(copy_bytes(b)),
            Value::Symbol(b) => Value::Symbol(copy_bytes(b)),
            Value::Array(elems) => {
                let mut out: Vec<Value> = Vec::new();
                for i in 0..elems.len()
                    invariant
                        out@.len() == i,
                        forall|j: int| 0 <= j < i ==> out@[j].sval() == elems@[j].sval(),
                {
                    out.push(elems[i].duplicate());
                }
                let r = Value::Array(out);
                proof {
                    let s1 = r.sval()->Array_0;
                    let s2 = self.sval()->Array_0;
                    assert forall|i: int| 0 <= i < s1.len() implies s1[i] == s2[i] by {
                        assert(s1[i] == out@[i].sval());
                        assert(s2[i] == elems@[i].sval());
                    }
                    assert(s1 =~= s2);
                }
                r
            },
            Value::Hash(pairs) => {
                let mut out: Vec<(i32, Value)> = Vec::new();
                for i in 0..pairs.len()
                    invariant
                        out@.len() == i,
                        forall|j: int| 0 <= j < i
                            ==> out@[j].0 == pairs@[j].0 && out@[j].1.sval() == pairs@[j].1.sval(),
                {
                    let p = &pairs[i];
                    out.push((p.0, p.1.duplicate()));
                }
                let r = Value::Hash(out);
                proof {
                    let s1 = r.sval()->Hash_0;
                    let s2 = self.sval()->Hash_0;
                    assert forall|i: int| 0 <= i < s1.len() implies s1[i] == s2[i] by {
                        assert(s1[i] == (out@[i].0, out@[i].1.sval()));
                        assert(s2[i] == (pairs@[i].0, pairs@[i].1.sval()));
                    }
                    assert(s1 =~= s2);
                }
                r
            },
            Value::Object(o) => {
                let mut list: Vec<(Vec<u8>, Value)> = Vec::new();
                for i in 0..o.list.len()
                    invariant
                        list@.len() == i,
                        forall|j: int| 0 <= j < i
                            ==> list@[j].0@ == o.list@[j].0@
                                && list@[j].1.sval() == o.list@[j].1.sval(),
                {
                    let p = &o.list[i];
                    list.push((copy_bytes(&p.0), p.1.duplicate()));
                }
                let r = Value::Object(Object { name: copy_bytes(&o.name), list });
                proof {
                    let s1 = r.sval()->Object_ivars;
                    let s2 = self.sval()->Object_ivars;
                    assert forall|i: int| 0 <= i < s1.len() implies s1[i] == s2[i] by {
                        assert(s1[i] == (r->Object_0.list@[i].0@, r->Object_0.list@[i].1.sval()));
                        assert(s2[i] == (o.list@[i].0@, o.list@[i].1.sval()));
                    }
                    assert(s1 =~= s2);
                    assert(r.sval()->Object_name == self.sval()->Object_name);
                }
                r
            },
            Value::Color(c) => Value::Color(*c),
            Value::Tone(t) => Value::Tone(*t),
            Value::Table(t) => {
                let mut data: Vec<i16> = Vec::new();
                for i in 0..t.data.len()
                    invariant
                        data@.len() == i,
                        forall|j: int| 0 <= j < i ==> data@[j] == t.data@[j],
                {
                    data.push(t.data[i]);
                }
                proof {
                    assert(data@ =~= t.data@);
                }
                Value::Table(Table { x_size: t.x_size, y_size: t.y_size, z_size: t.z_size, data })
            },
            Value::Link(i) => Value::Link(*i),
            Value::Symlink(i) => Value::Symlink(*i),
        }
    }
}

} // verus!
