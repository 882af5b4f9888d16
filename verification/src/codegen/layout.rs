//! Size, alignment and field offsets of Vinyl types.
//!
//! Every computation here is stated twice: once as a spec function over the
//! mathematical values, returning `None` where the computation would overflow
//! a `u32` or would not finish (a named type that contains itself), and once
//! as executable code proved to compute exactly that value.

use vstd::prelude::*;

verus! {

/// Byte size and alignment of a laid-out value.
#[derive(Debug, Clone, Copy, PartialEq, Eq, Structural)]
pub struct Layout {
    pub size: u32,
    pub alignment: u32,
}

/// Placement of one field inside an aggregate.
#[derive(Debug, Clone, Copy, PartialEq, Eq, Structural)]
pub struct FieldLayout {
    pub offset: u32,
    pub size: u32,
}

/// Built-in scalar types.
#[derive(Debug, Clone, Copy, PartialEq, Eq, Structural)]
pub enum Primitive {
    Int8,
    UInt8,
    Bool,
    Int16,
    UInt16,
    Int32,
    UInt32,
    Float32,
    Char,
    Int64,
    UInt64,
    Float64,
    Int128,
    UInt128,
    ISize,
    USize,
    Str,
    Unit,
}

/// A checked Vinyl type, as far as layout reads it.
#[derive(Debug)]
pub enum Type {
    Primitive(Primitive),
    /// A user type, looked up by name in the type table.
    Named(String),
    Ref(Box<Type>),
    Array { element: Box<Type>, size: usize },
    Tuple(Vec<Type>),
    /// A generic parameter; laid out as a pointer.
    Generic { name: String },
    /// An inference variable; laid out as a pointer.
    Var(usize),
}

/// A user type definition, as far as layout reads it.
#[derive(Debug)]
pub enum TypeDef {
    /// Named fields; `repr_c` keeps declaration order.
    Struct { fields: Vec<(String, Type)>, repr_c: bool },
    /// The payload types of each variant (none for a unit variant).
    Enum { variants: Vec<Vec<Type>> },
    TupleStruct { types: Vec<Type> },
    /// Any other item (a function, an alias, ...): laid out as a pointer.
    Other,
}

/// Size in bytes of a primitive.
pub open spec fn prim_size(p: Primitive, ps: u32) -> u32 {
    match p {
        Primitive::Int8 | Primitive::UInt8 | Primitive::Bool => 1,
        Primitive::Int16 | Primitive::UInt16 => 2,
        Primitive::Int32 | Primitive::UInt32 | Primitive::Float32 | Primitive::Char => 4,
        Primitive::Int64 | Primitive::UInt64 | Primitive::Float64 => 8,
        Primitive::Int128 | Primitive::UInt128 => 16,
        Primitive::ISize | Primitive::USize | Primitive::Str => ps,
        Primitive::Unit => 0,
    }
}

/// Alignment in bytes of a primitive.
pub open spec fn prim_align(p: Primitive, ps: u32) -> u32 {
    match p {
        Primitive::Unit => 1,
        _ => prim_size(p, ps),
    }
}

/// Whether rounding `offset` up to `alignment` stays within `u32`.
pub open spec fn align_up_fits(offset: u32, alignment: u32) -> bool {
    alignment <= 1 || offset + alignment - 1 <= u32::MAX
}

/// `offset` rounded up with the mask `alignment - 1`; unchanged for an
/// alignment of zero or one.
pub open spec fn align_up_value(offset: u32, alignment: u32) -> u32 {
    if alignment <= 1 {
        offset
    } else {
        ((offset + (alignment - 1)) as u32) & !((alignment - 1) as u32)
    }
}

/// [`align_up_value`] where it fits, else `None`.
pub open spec fn checked_align_up(offset: u32, alignment: u32) -> Option<u32> {
    if align_up_fits(offset, alignment) {
        Some(align_up_value(offset, alignment))
    } else {
        None
    }
}

/// `a + b` where it fits in `u32`.
pub open spec fn checked_add(a: u32, b: u32) -> Option<u32> {
    if a + b <= u32::MAX {
        Some((a + b) as u32)
    } else {
        None
    }
}

/// `a * b` where it fits in `u32`.
pub open spec fn checked_mul(a: u32, b: u32) -> Option<u32> {
    if a * b <= u32::MAX {
        Some((a * b) as u32)
    } else {
        None
    }
}

/// The larger of two values.
pub open spec fn max_u32(a: u32, b: u32) -> u32 {
    if a >= b {
        a
    } else {
        b
    }
}

/// Rounds `offset` up to a multiple of `alignment` by masking; an alignment
/// of zero or one leaves it unchanged.
pub fn align_up(offset: u32, alignment: u32) -> (r: u32)
    requires
        align_up_fits(offset, alignment),
    ensures
        r == align_up_value(offset, alignment),
{
    if alignment <= 1 {
        return offset;
    }
    let mask = alignment - 1;
    (offset + mask) & !mask
}

/// Whether `a` is a power of two.
pub open spec fn is_pow2(a: u32) -> bool {
    a > 0 && a & ((a - 1) as u32) == 0
}

/// For a power-of-two alignment, rounding up gives the least multiple of
/// the alignment that is not below the offset.
pub proof fn law_align_up_rounds(offset: u32, alignment: u32)
    requires
        is_pow2(alignment),
        align_up_fits(offset, alignment),
    ensures
        align_up_value(offset, alignment) % alignment == 0,
        offset <= align_up_value(offset, alignment),
        align_up_value(offset, alignment) < offset + alignment,
{
    if alignment > 1 {
        let m: u32 = (alignment - 1) as u32;
        let x: u32 = (offset + m) as u32;
        assert(alignment & m == 0 && alignment > 1 && offset + m <= u32::MAX && x == offset + m
            ==> (x & !m) % alignment == 0 && offset <= (x & !m) && (x & !m) < offset + alignment)
            by (bit_vector)
            requires
                m == alignment - 1,
        ;
    }
}

/// The definition a type table gives a name: its first entry with that name.
pub open spec fn lookup(tbl: Seq<(String, TypeDef)>, name: Seq<char>) -> Option<TypeDef>
    decreases tbl.len(),
{
    if tbl.len() == 0 {
        None
    } else if tbl[0].0@ == name {
        Some(tbl[0].1)
    } else {
        lookup(tbl.drop_first(), name)
    }
}

/// The types of a list of named fields.
pub open spec fn field_types(fields: Seq<(String, Type)>) -> Seq<Type> {
    fields.map_values(|f: (String, Type)| f.1)
}

/// Alignment of `t`. `fuel` bounds how many named definitions may be entered
/// one inside another; `None` when it runs out.
pub open spec fn align_spec(t: Type, tbl: Seq<(String, TypeDef)>, ps: u32, fuel: nat) -> Option<u32>
    decreases fuel, t, 0int,
{
    match t {
        Type::Primitive(p) => Some(prim_align(p, ps)),
        Type::Named(name) => match lookup(tbl, name@) {
            Some(TypeDef::Struct { fields, .. }) => if fuel == 0 {
                None
            } else {
                let tys = field_types(fields@);
                max_align_spec(tys, tys.len() as int, 1, tbl, ps, (fuel - 1) as nat)
            },
            Some(TypeDef::Enum { variants }) => if fuel == 0 {
                None
            } else {
                variants_align_spec(variants@, variants@.len() as int, tbl, ps, (fuel - 1) as nat)
            },
            Some(TypeDef::TupleStruct { types }) => if fuel == 0 {
                None
            } else {
                tuple_align_spec(types@, tbl, ps, (fuel - 1) as nat)
            },
            _ => Some(ps),
        },
        Type::Ref(_) => Some(ps),
        Type::Array { element, .. } => align_spec(*element, tbl, ps, fuel),
        Type::Tuple(elements) => tuple_align_spec(elements@, tbl, ps, fuel),
        Type::Generic { .. } => Some(ps),
        Type::Var(_) => Some(ps),
    }
}

/// Alignment of a tuple: the largest alignment of its elements, one when
/// it has none.
pub open spec fn tuple_align_spec(elems: Seq<Type>, tbl: Seq<(String, TypeDef)>, ps: u32, fuel: nat) -> Option<u32>
    decreases fuel, elems, elems.len() + 1,
{
    if elems.len() == 0 {
        Some(1)
    } else {
        max_align_spec(elems, elems.len() as int, 0, tbl, ps, fuel)
    }
}

/// The largest of `floor` and the alignments of `elems[0..n]`.
pub open spec fn max_align_spec(
    elems: Seq<Type>,
    n: int,
    floor: u32,
    tbl: Seq<(String, TypeDef)>,
    ps: u32,
    fuel: nat,
) -> Option<u32>
    decreases fuel, elems, if n > 0 { n } else { 0 },
{
    if n <= 0 || n > elems.len() {
        Some(floor)
    } else {
        match (max_align_spec(elems, n - 1, floor, tbl, ps, fuel), align_spec(elems[n - 1], tbl, ps, fuel)) {
            (Some(a), Some(b)) => Some(max_u32(a, b)),
            _ => None,
        }
    }
}

/// The largest of one and the alignments of every payload type of
/// `variants[0..n]`.
pub open spec fn variants_align_spec(
    variants: Seq<Vec<Type>>,
    n: int,
    tbl: Seq<(String, TypeDef)>,
    ps: u32,
    fuel: nat,
) -> Option<u32>
    decreases fuel, variants, if n > 0 { n } else { 0 },
{
    if n <= 0 || n > variants.len() {
        Some(1)
    } else {
        match variants_align_spec(variants, n - 1, tbl, ps, fuel) {
            Some(a) => max_align_spec(variants[n - 1]@, variants[n - 1]@.len() as int, a, tbl, ps, fuel),
            None => None,
        }
    }
}

/// Size of `t`, `None` where it overflows `u32` or where `fuel` runs out.
pub open spec fn size_spec(t: Type, tbl: Seq<(String, TypeDef)>, ps: u32, fuel: nat) -> Option<u32>
    decreases fuel, t, 0int,
{
    match t {
        Type::Primitive(p) => Some(prim_size(p, ps)),
        Type::Named(name) => match lookup(tbl, name@) {
            Some(TypeDef::Struct { fields, repr_c }) => if fuel == 0 {
                None
            } else {
                struct_total_spec(field_types(fields@), repr_c, tbl, ps, (fuel - 1) as nat)
            },
            Some(TypeDef::Enum { variants }) => if fuel == 0 {
                None
            } else {
                match enum_spec(variants@, tbl, ps, (fuel - 1) as nat) {
                    Some(l) => Some(l.0),
                    None => None,
                }
            },
            Some(TypeDef::TupleStruct { types }) => if fuel == 0 {
                None
            } else {
                tuple_size_spec(types@, tbl, ps, (fuel - 1) as nat)
            },
            _ => Some(ps),
        },
        Type::Ref(_) => Some(ps),
        Type::Array { element, size } => match size_spec(*element, tbl, ps, fuel) {
            Some(s) => checked_mul(s, size as u32),
            None => None,
        },
        Type::Tuple(elements) => tuple_size_spec(elements@, tbl, ps, fuel),
        Type::Generic { .. } => Some(ps),
        Type::Var(_) => Some(ps),
    }
}

/// Size of a tuple: its elements placed in order, each at the next offset
/// aligned for it, the end rounded up to the tuple's alignment.
pub open spec fn tuple_size_spec(elems: Seq<Type>, tbl: Seq<(String, TypeDef)>, ps: u32, fuel: nat) -> Option<u32>
    decreases fuel, elems, elems.len() + 1,
{
    if elems.len() == 0 {
        Some(0)
    } else {
        match (max_align_spec(elems, elems.len() as int, 0, tbl, ps, fuel), seq_end_spec(elems, elems.len() as int, tbl, ps, fuel)) {
            (Some(a), Some(e)) => checked_align_up(e, a),
            _ => None,
        }
    }
}

/// The offset just past `elems[0..n]` placed in order, each at the next
/// offset aligned for it.
pub open spec fn seq_end_spec(elems: Seq<Type>, n: int, tbl: Seq<(String, TypeDef)>, ps: u32, fuel: nat) -> Option<u32>
    decreases fuel, elems, if n > 0 { n } else { 0 },
{
    if n <= 0 || n > elems.len() {
        Some(0)
    } else {
        match (seq_end_spec(elems, n - 1, tbl, ps, fuel), align_spec(elems[n - 1], tbl, ps, fuel), size_spec(elems[n - 1], tbl, ps, fuel)) {
            (Some(e), Some(a), Some(z)) => match checked_align_up(e, a) {
                Some(o) => checked_add(o, z),
                None => None,
            },
            _ => None,
        }
    }
}

/// The alignments of `elems[0..n]`.
pub open spec fn aligns_spec(elems: Seq<Type>, n: int, tbl: Seq<(String, TypeDef)>, ps: u32, fuel: nat) -> Option<Seq<u32>>
    decreases fuel, elems, if n > 0 { n } else { 0 },
{
    if n <= 0 || n > elems.len() {
        Some(Seq::empty())
    } else {
        match (aligns_spec(elems, n - 1, tbl, ps, fuel), align_spec(elems[n - 1], tbl, ps, fuel)) {
            (Some(s), Some(a)) => Some(s.push(a)),
            _ => None,
        }
    }
}

/// The offset just past the fields `order[0..k]`, placed in that order with
/// the alignments `keys`.
pub open spec fn ordered_end_spec(
    elems: Seq<Type>,
    keys: Seq<u32>,
    order: Seq<int>,
    k: int,
    tbl: Seq<(String, TypeDef)>,
    ps: u32,
    fuel: nat,
) -> Option<u32>
    decreases fuel, elems, if k > 0 { k } else { 0 },
{
    if k <= 0 || k > order.len() {
        Some(0)
    } else {
        let j = order[k - 1];
        if !(0 <= j < elems.len() && j < keys.len()) {
            None
        } else {
            match (ordered_end_spec(elems, keys, order, k - 1, tbl, ps, fuel), size_spec(elems[j], tbl, ps, fuel)) {
                (Some(e), Some(z)) => match checked_align_up(e, keys[j]) {
                    Some(o) => checked_add(o, z),
                    None => None,
                },
                _ => None,
            }
        }
    }
}

/// Total size of a struct with fields of types `elems`.
pub open spec fn struct_total_spec(elems: Seq<Type>, repr_c: bool, tbl: Seq<(String, TypeDef)>, ps: u32, fuel: nat) -> Option<u32>
    decreases fuel, elems, elems.len() + 1,
{
    match aligns_spec(elems, elems.len() as int, tbl, ps, fuel) {
        Some(keys) => match ordered_end_spec(elems, keys, field_order(keys, repr_c), elems.len() as int, tbl, ps, fuel) {
            Some(e) => checked_align_up(e, max_of(keys, 1)),
            None => None,
        },
        None => None,
    }
}

/// Size, payload offset and discriminant size of an enum with the given
/// variant payloads.
pub open spec fn enum_spec(variants: Seq<Vec<Type>>, tbl: Seq<(String, TypeDef)>, ps: u32, fuel: nat) -> Option<(u32, u32, u32)>
    decreases fuel, variants, variants.len() + 1,
{
    if variants.len() == 0 {
        Some((1, 0, 1))
    } else {
        let disc: u32 = if variants.len() <= 256 { 1 } else { 2 };
        match variants_fold_spec(variants, variants.len() as int, tbl, ps, fuel) {
            Some((max_size, max_align)) => match checked_align_up(disc, max_align) {
                Some(data_offset) => match checked_add(data_offset, max_size) {
                    Some(end) => match checked_align_up(end, max_align) {
                        Some(total) => Some((total, data_offset, disc)),
                        None => None,
                    },
                    None => None,
                },
                None => None,
            },
            None => None,
        }
    }
}

/// The largest padded size and the largest alignment (at least one) among
/// the payloads of `variants[0..n]`.
pub open spec fn variants_fold_spec(variants: Seq<Vec<Type>>, n: int, tbl: Seq<(String, TypeDef)>, ps: u32, fuel: nat) -> Option<(u32, u32)>
    decreases fuel, variants, if n > 0 { n } else { 0 },
{
    if n <= 0 || n > variants.len() {
        Some((0, 1))
    } else {
        let v = variants[n - 1]@;
        match (variants_fold_spec(variants, n - 1, tbl, ps, fuel), seq_end_spec(v, v.len() as int, tbl, ps, fuel), max_align_spec(v, v.len() as int, 1, tbl, ps, fuel)) {
            (Some((ms, ma)), Some(e), Some(va)) => match checked_align_up(e, va) {
                Some(vs) => Some((max_u32(ms, vs), max_u32(ma, va))),
                None => None,
            },
            _ => None,
        }
    }
}

/// The largest of `floor` and the values of `s`.
pub open spec fn max_of(s: Seq<u32>, floor: u32) -> u32
    decreases s.len(),
{
    if s.len() == 0 {
        floor
    } else {
        max_u32(max_of(s.drop_last(), floor), s.last())
    }
}

/// Where `field_order` puts a field of alignment `key`, given the order
/// built so far: before the first field of smaller alignment, from `p` on.
pub open spec fn first_below(order: Seq<int>, keys: Seq<u32>, key: u32, p: int) -> int
    decreases order.len() - p,
{
    if p >= order.len() || p < 0 {
        order.len() as int
    } else if 0 <= order[p] < keys.len() && keys[order[p]] < key {
        p
    } else {
        first_below(order, keys, key, p + 1)
    }
}

/// The field indices `0..n` sorted by decreasing alignment, fields of equal
/// alignment in declaration order.
pub open spec fn stable_order(keys: Seq<u32>, n: int) -> Seq<int>
    decreases if n > 0 { n } else { 0 },
{
    if n <= 0 {
        Seq::empty()
    } else {
        let o = stable_order(keys, n - 1);
        o.insert(first_below(o, keys, keys[n - 1], 0), n - 1)
    }
}

/// The order in which a struct's fields are placed: declaration order for
/// `repr(C)`, else [`stable_order`].
pub open spec fn field_order(keys: Seq<u32>, repr_c: bool) -> Seq<int> {
    if repr_c {
        Seq::new(keys.len(), |i: int| i)
    } else {
        stable_order(keys, keys.len() as int)
    }
}

/// Once the alignment fold fails, every longer prefix fails too.
proof fn lemma_max_align_none(elems: Seq<Type>, k: int, n: int, floor: u32, tbl: Seq<(String, TypeDef)>, ps: u32, fuel: nat)
    requires
        0 < k <= n <= elems.len(),
        max_align_spec(elems, k, floor, tbl, ps, fuel) is None,
    ensures
        max_align_spec(elems, n, floor, tbl, ps, fuel) is None,
    decreases n - k,
{
    if n > k {
        lemma_max_align_none(elems, k, n - 1, floor, tbl, ps, fuel);
    }
}

/// Once the variant alignment fold fails, every longer prefix fails too.
proof fn lemma_variants_align_none(variants: Seq<Vec<Type>>, k: int, n: int, tbl: Seq<(String, TypeDef)>, ps: u32, fuel: nat)
    requires
        0 < k <= n <= variants.len(),
        variants_align_spec(variants, k, tbl, ps, fuel) is None,
    ensures
        variants_align_spec(variants, n, tbl, ps, fuel) is None,
    decreases n - k,
{
    if n > k {
        lemma_variants_align_none(variants, k, n - 1, tbl, ps, fuel);
    }
}

/// Size or alignment of a primitive.
fn prim_layout(p: Primitive, ps: u32) -> (r: Layout)
    ensures
        r.size == prim_size(p, ps),
        r.alignment == prim_align(p, ps),
{
    let size: u32 = match p {
        Primitive::Int8 | Primitive::UInt8 | Primitive::Bool => 1,
        Primitive::Int16 | Primitive::UInt16 => 2,
        Primitive::Int32 | Primitive::UInt32 | Primitive::Float32 | Primitive::Char => 4,
        Primitive::Int64 | Primitive::UInt64 | Primitive::Float64 => 8,
        Primitive::Int128 | Primitive::UInt128 => 16,
        Primitive::ISize | Primitive::USize | Primitive::Str => ps,
        Primitive::Unit => 0,
    };
    let alignment: u32 = match p {
        Primitive::Unit => 1,
        _ => size,
    };
    Layout { size, alignment }
}

/// The definition the table gives `name`.
fn lookup_in<'a>(tbl: &'a [(String, TypeDef)], name: &String) -> (r: Option<&'a TypeDef>)
    ensures
        r matches Some(d) ==> lookup(tbl@, name@) == Some(*d),
        r is None ==> lookup(tbl@, name@) is None,
{
    let mut i: usize = 0;
    assert(tbl@.skip(0) =~= tbl@);
    while i < tbl.len()
        invariant
            i <= tbl@.len(),
            lookup(tbl@, name@) == lookup(tbl@.skip(i as int), name@),
        decreases tbl.len() - i,
    {
        assert(tbl@.skip(i as int).drop_first() =~= tbl@.skip(i + 1));
        if tbl[i].0 == *name {
            return Some(&tbl[i].1);
        }
        i += 1;
    }
    None
}

/// Alignment of `t`, as [`align_spec`] gives it.
fn align_in(t: &Type, tbl: &[(String, TypeDef)], ps: u32, fuel: usize) -> (r: Option<u32>)
    ensures
        r == align_spec(*t, tbl@, ps, fuel as nat),
    decreases fuel, *t, 0int,
{
    match t {
        Type::Primitive(p) => Some(prim_layout(*p, ps).alignment),
        Type::Named(name) => match lookup_in(tbl, name) {
            Some(TypeDef::Struct { fields, .. }) => {
                if fuel == 0 {
                    None
                } else {
                    fields_max_align_in(fields.as_slice(), tbl, ps, fuel - 1)
                }
            },
            Some(TypeDef::Enum { variants }) => {
                if fuel == 0 {
                    None
                } else {
                    variants_align_in(variants.as_slice(), tbl, ps, fuel - 1)
                }
            },
            Some(TypeDef::TupleStruct { types }) => {
                if fuel == 0 {
                    None
                } else {
                    tuple_align_in(types.as_slice(), tbl, ps, fuel - 1)
                }
            },
            _ => Some(ps),
        },
        Type::Ref(_) => Some(ps),
        Type::Array { element, .. } => align_in(element, tbl, ps, fuel),
        Type::Tuple(elements) => tuple_align_in(elements.as_slice(), tbl, ps, fuel),
        Type::Generic { .. } => Some(ps),
        Type::Var(_) => Some(ps),
    }
}

/// Alignment of a tuple, as [`tuple_align_spec`] gives it.
fn tuple_align_in(elems: &[Type], tbl: &[(String, TypeDef)], ps: u32, fuel: usize) -> (r: Option<u32>)
    ensures
        r == tuple_align_spec(elems@, tbl@, ps, fuel as nat),
    decreases fuel, elems@, elems@.len() + 1,
{
    if elems.len() == 0 {
        Some(1)
    } else {
        max_align_in(elems, 0, tbl, ps, fuel)
    }
}

/// The largest of `floor` and the alignments of `elems`.
fn max_align_in(elems: &[Type], floor: u32, tbl: &[(String, TypeDef)], ps: u32, fuel: usize) -> (r: Option<u32>)
    ensures
        r == max_align_spec(elems@, elems@.len() as int, floor, tbl@, ps, fuel as nat),
    decreases fuel, elems@, elems@.len(),
{
    let mut acc: u32 = floor;
    let mut i: usize = 0;
    while i < elems.len()
        invariant
            i <= elems@.len(),
            max_align_spec(elems@, i as int, floor, tbl@, ps, fuel as nat) == Some(acc),
        decreases elems.len() - i,
    {
        match align_in(&elems[i], tbl, ps, fuel) {
            Some(a) => {
                if a > acc {
                    acc = a;
                }
            },
            None => {
                proof {
                    lemma_max_align_none(elems@, i + 1, elems@.len() as int, floor, tbl@, ps, fuel as nat);
                }
                return None;
            },
        }
        i += 1;
    }
    Some(acc)
}

/// The largest of one and the alignments of the field types.
fn fields_max_align_in(fields: &[(String, Type)], tbl: &[(String, TypeDef)], ps: u32, fuel: usize) -> (r: Option<u32>)
    ensures
        r == max_align_spec(field_types(fields@), fields@.len() as int, 1, tbl@, ps, fuel as nat),
    decreases fuel, fields@, fields@.len(),
{
    let ghost tys = field_types(fields@);
    let mut acc: u32 = 1;
    let mut i: usize = 0;
    while i < fields.len()
        invariant
            i <= fields@.len(),
            tys == field_types(fields@),
            max_align_spec(tys, i as int, 1, tbl@, ps, fuel as nat) == Some(acc),
        decreases fields.len() - i,
    {
        assert(tys[i as int] == fields@[i as int].1);
        match align_in(&fields[i].1, tbl, ps, fuel) {
            Some(a) => {
                if a > acc {
                    acc = a;
                }
            },
            None => {
                proof {
                    lemma_max_align_none(tys, i + 1, fields@.len() as int, 1, tbl@, ps, fuel as nat);
                }
                return None;
            },
        }
        i += 1;
    }
    Some(acc)
}

/// The largest of one and every payload alignment of the variants.
fn variants_align_in(variants: &[Vec<Type>], tbl: &[(String, TypeDef)], ps: u32, fuel: usize) -> (r: Option<u32>)
    ensures
        r == variants_align_spec(variants@, variants@.len() as int, tbl@, ps, fuel as nat),
    decreases fuel, variants@, variants@.len(),
{
    let mut acc: u32 = 1;
    let mut i: usize = 0;
    while i < variants.len()
        invariant
            i <= variants@.len(),
            variants_align_spec(variants@, i as int, tbl@, ps, fuel as nat) == Some(acc),
        decreases variants.len() - i,
    {
        match max_align_in(variants[i].as_slice(), acc, tbl, ps, fuel) {
            Some(a) => {
                acc = a;
            },
            None => {
                proof {
                    lemma_variants_align_none(variants@, i + 1, variants@.len() as int, tbl@, ps, fuel as nat);
                }
                return None;
            },
        }
        i += 1;
    }
    Some(acc)
}

/// Once the placement fold fails, every longer prefix fails too.
proof fn lemma_seq_end_none(elems: Seq<Type>, k: int, n: int, tbl: Seq<(String, TypeDef)>, ps: u32, fuel: nat)
    requires
        0 < k <= n <= elems.len(),
        seq_end_spec(elems, k, tbl, ps, fuel) is None,
    ensures
        seq_end_spec(elems, n, tbl, ps, fuel) is None,
    decreases n - k,
{
    if n > k {
        lemma_seq_end_none(elems, k, n - 1, tbl, ps, fuel);
    }
}

/// Once collecting alignments fails, every longer prefix fails too.
proof fn lemma_aligns_none(elems: Seq<Type>, k: int, n: int, tbl: Seq<(String, TypeDef)>, ps: u32, fuel: nat)
    requires
        0 < k <= n <= elems.len(),
        aligns_spec(elems, k, tbl, ps, fuel) is None,
    ensures
        aligns_spec(elems, n, tbl, ps, fuel) is None,
    decreases n - k,
{
    if n > k {
        lemma_aligns_none(elems, k, n - 1, tbl, ps, fuel);
    }
}

/// The collected alignments are the alignments, one per element.
proof fn lemma_aligns_some(elems: Seq<Type>, n: int, tbl: Seq<(String, TypeDef)>, ps: u32, fuel: nat)
    requires
        0 <= n <= elems.len(),
        aligns_spec(elems, n, tbl, ps, fuel) is Some,
    ensures
        aligns_spec(elems, n, tbl, ps, fuel).unwrap().len() == n,
        forall|i: int| 0 <= i < n ==> align_spec(#[trigger] elems[i], tbl, ps, fuel) == Some(aligns_spec(elems, n, tbl, ps, fuel).unwrap()[i]),
    decreases n,
{
    if n > 0 {
        lemma_aligns_some(elems, n - 1, tbl, ps, fuel);
    }
}

/// Once the ordered placement fails, every longer prefix fails too.
proof fn lemma_ordered_end_none(elems: Seq<Type>, keys: Seq<u32>, order: Seq<int>, k: int, n: int, tbl: Seq<(String, TypeDef)>, ps: u32, fuel: nat)
    requires
        0 < k <= n <= order.len(),
        ordered_end_spec(elems, keys, order, k, tbl, ps, fuel) is None,
    ensures
        ordered_end_spec(elems, keys, order, n, tbl, ps, fuel) is None,
    decreases n - k,
{
    if n > k {
        lemma_ordered_end_none(elems, keys, order, k, n - 1, tbl, ps, fuel);
    }
}

/// Once the variant fold fails, every longer prefix fails too.
proof fn lemma_variants_fold_none(variants: Seq<Vec<Type>>, k: int, n: int, tbl: Seq<(String, TypeDef)>, ps: u32, fuel: nat)
    requires
        0 < k <= n <= variants.len(),
        variants_fold_spec(variants, k, tbl, ps, fuel) is None,
    ensures
        variants_fold_spec(variants, n, tbl, ps, fuel) is None,
    decreases n - k,
{
    if n > k {
        lemma_variants_fold_none(variants, k, n - 1, tbl, ps, fuel);
    }
}

/// [`first_below`] is a position at which an element may be inserted.
proof fn lemma_first_below_range(order: Seq<int>, keys: Seq<u32>, key: u32, p: int)
    requires
        0 <= p <= order.len(),
    ensures
        p <= first_below(order, keys, key, p) <= order.len(),
    decreases order.len() - p,
{
    if p < order.len() {
        lemma_first_below_range(order, keys, key, p + 1);
    }
}

/// [`stable_order`] lists each of the indices `0..n` exactly once.
pub proof fn lemma_stable_order_perm(keys: Seq<u32>, n: int)
    requires
        0 <= n,
    ensures
        stable_order(keys, n).len() == n,
        forall|i: int| 0 <= i < n ==> 0 <= #[trigger] stable_order(keys, n)[i] < n,
        forall|i: int, j: int|
            0 <= i < n && 0 <= j < n && i != j ==> #[trigger] stable_order(keys, n)[i] != #[trigger] stable_order(keys, n)[j],
    decreases n,
{
    if n > 0 {
        lemma_stable_order_perm(keys, n - 1);
        let o = stable_order(keys, n - 1);
        let p = first_below(o, keys, keys[n - 1], 0);
        lemma_first_below_range(o, keys, keys[n - 1], 0);
        let r = o.insert(p, n - 1);
        assert(r == stable_order(keys, n));
        assert forall|i: int| 0 <= i < n implies 0 <= #[trigger] r[i] < n by {
            if i < p {
                assert(r[i] == o[i]);
            } else if i > p {
                assert(r[i] == o[i - 1]);
            }
        }
        assert forall|i: int, j: int| 0 <= i < n && 0 <= j < n && i != j implies #[trigger] r[i] != #[trigger] r[j] by {
            if i != p && j != p {
                let oi = if i < p { i } else { i - 1 };
                let oj = if j < p { j } else { j - 1 };
                assert(r[i] == o[oi]);
                assert(r[j] == o[oj]);
            } else if i == p {
                let oj = if j < p { j } else { j - 1 };
                assert(r[j] == o[oj]);
            } else {
                let oi = if i < p { i } else { i - 1 };
                assert(r[i] == o[oi]);
            }
        }
    }
}

/// Size of `t`, as [`size_spec`] gives it.
fn size_in(t: &Type, tbl: &[(String, TypeDef)], ps: u32, fuel: usize) -> (r: Option<u32>)
    ensures
        r == size_spec(*t, tbl@, ps, fuel as nat),
    decreases fuel, *t, 0int,
{
    match t {
        Type::Primitive(p) => Some(prim_layout(*p, ps).size),
        Type::Named(name) => match lookup_in(tbl, name) {
            Some(TypeDef::Struct { fields, repr_c }) => {
                if fuel == 0 {
                    None
                } else {
                    match struct_layout_in(fields.as_slice(), *repr_c, tbl, ps, fuel - 1) {
                        Some(l) => Some(l.0),
                        None => None,
                    }
                }
            },
            Some(TypeDef::Enum { variants }) => {
                if fuel == 0 {
                    None
                } else {
                    match enum_layout_in(variants.as_slice(), tbl, ps, fuel - 1) {
                        Some(l) => Some(l.0),
                        None => None,
                    }
                }
            },
            Some(TypeDef::TupleStruct { types }) => {
                if fuel == 0 {
                    None
                } else {
                    tuple_size_in(types.as_slice(), tbl, ps, fuel - 1)
                }
            },
            _ => Some(ps),
        },
        Type::Ref(_) => Some(ps),
        Type::Array { element, size } => match size_in(element, tbl, ps, fuel) {
            Some(s) => {
                #[verifier::truncate]
                let n = *size as u32;
                s.checked_mul(n)
            },
            None => None,
        },
        Type::Tuple(elements) => tuple_size_in(elements.as_slice(), tbl, ps, fuel),
        Type::Generic { .. } => Some(ps),
        Type::Var(_) => Some(ps),
    }
}

/// Size of a tuple, as [`tuple_size_spec`] gives it.
fn tuple_size_in(elems: &[Type], tbl: &[(String, TypeDef)], ps: u32, fuel: usize) -> (r: Option<u32>)
    ensures
        r == tuple_size_spec(elems@, tbl@, ps, fuel as nat),
    decreases fuel, elems@, elems@.len() + 1,
{
    if elems.len() == 0 {
        return Some(0);
    }
    let max_align = max_align_in(elems, 0, tbl, ps, fuel);
    let end = seq_end_in(elems, tbl, ps, fuel);
    match (max_align, end) {
        (Some(a), Some(e)) => checked_align_up_in(e, a),
        _ => None,
    }
}

/// [`align_up`] where it fits in `u32`.
fn checked_align_up_in(offset: u32, alignment: u32) -> (r: Option<u32>)
    ensures
        r == checked_align_up(offset, alignment),
{
    if alignment <= 1 || offset <= u32::MAX - (alignment - 1) {
        Some(align_up(offset, alignment))
    } else {
        None
    }
}

/// The offset just past `elems`, as [`seq_end_spec`] gives it.
fn seq_end_in(elems: &[Type], tbl: &[(String, TypeDef)], ps: u32, fuel: usize) -> (r: Option<u32>)
    ensures
        r == seq_end_spec(elems@, elems@.len() as int, tbl@, ps, fuel as nat),
    decreases fuel, elems@, elems@.len(),
{
    let mut total: u32 = 0;
    let mut i: usize = 0;
    while i < elems.len()
        invariant
            i <= elems@.len(),
            seq_end_spec(elems@, i as int, tbl@, ps, fuel as nat) == Some(total),
        decreases elems.len() - i,
    {
        let a = align_in(&elems[i], tbl, ps, fuel);
        let z = size_in(&elems[i], tbl, ps, fuel);
        let next = match (a, z) {
            (Some(a), Some(z)) => match checked_align_up_in(total, a) {
                Some(o) => o.checked_add(z),
                None => None,
            },
            _ => None,
        };
        match next {
            Some(n) => {
                total = n;
            },
            None => {
                proof {
                    lemma_seq_end_none(elems@, i + 1, elems@.len() as int, tbl@, ps, fuel as nat);
                }
                return None;
            },
        }
        i += 1;
    }
    Some(total)
}

/// The offset of the `k`-th placed field: the end of the fields before it,
/// rounded up to its alignment.
pub open spec fn field_offset_spec(
    elems: Seq<Type>,
    keys: Seq<u32>,
    order: Seq<int>,
    k: int,
    tbl: Seq<(String, TypeDef)>,
    ps: u32,
    fuel: nat,
) -> Option<u32> {
    match ordered_end_spec(elems, keys, order, k, tbl, ps, fuel) {
        Some(e) => checked_align_up(e, keys[order[k]]),
        None => None,
    }
}

/// Layout of a struct: its total size and, in placement order, each field's
/// name, offset and size.
pub open spec fn struct_layout_spec(
    fields: Seq<(String, Type)>,
    repr_c: bool,
    tbl: Seq<(String, TypeDef)>,
    ps: u32,
    fuel: nat,
) -> Option<(u32, Seq<(Seq<char>, FieldLayout)>)> {
    let tys = field_types(fields);
    match (aligns_spec(tys, tys.len() as int, tbl, ps, fuel), struct_total_spec(tys, repr_c, tbl, ps, fuel)) {
        (Some(keys), Some(total)) => {
            let order = field_order(keys, repr_c);
            Some(
                (
                    total,
                    Seq::new(
                        fields.len(),
                        |k: int|
                            (
                                fields[order[k]].0@,
                                FieldLayout {
                                    offset: field_offset_spec(tys, keys, order, k, tbl, ps, fuel).unwrap(),
                                    size: size_spec(tys[order[k]], tbl, ps, fuel).unwrap(),
                                },
                            ),
                    ),
                ),
            )
        },
        _ => None,
    }
}

/// Field names and placements of a computed layout.
pub open spec fn entries_view(v: Seq<(String, FieldLayout)>) -> Seq<(Seq<char>, FieldLayout)> {
    v.map_values(|e: (String, FieldLayout)| (e.0@, e.1))
}

/// Indices as mathematical integers.
pub open spec fn ints(s: Seq<usize>) -> Seq<int> {
    s.map_values(|x: usize| x as int)
}

/// The placement order of a struct's fields, as [`field_order`] gives it.
fn field_order_in(keys: &Vec<u32>, repr_c: bool) -> (order: Vec<usize>)
    ensures
        ints(order@) == field_order(keys@, repr_c),
{
    let mut order: Vec<usize> = Vec::new();
    let mut i: usize = 0;
    if repr_c {
        while i < keys.len()
            invariant
                i <= keys@.len(),
                order@.len() == i,
                forall|m: int| 0 <= m < i ==> #[trigger] order@[m] == m,
            decreases keys.len() - i,
        {
            order.push(i);
            i += 1;
        }
        assert(ints(order@) =~= field_order(keys@, repr_c));
        return order;
    }
    while i < keys.len()
        invariant
            i <= keys@.len(),
            ints(order@) == stable_order(keys@, i as int),
        decreases keys.len() - i,
    {
        proof {
            lemma_stable_order_perm(keys@, i as int);
        }
        let key = keys[i];
        let ghost o = ints(order@);
        let mut p: usize = 0;
        loop
            invariant
                p <= order@.len(),
                o == ints(order@),
                o == stable_order(keys@, i as int),
                i < keys@.len(),
                forall|m: int| 0 <= m < o.len() ==> 0 <= #[trigger] o[m] < i,
                first_below(o, keys@, key, 0) == first_below(o, keys@, key, p as int),
            ensures
                p <= order@.len(),
                first_below(o, keys@, key, 0) == p,
            decreases order.len() - p,
        {
            if p >= order.len() {
                break;
            }
            assert(o[p as int] == order@[p as int] as int);
            if keys[order[p]] < key {
                break;
            }
            p += 1;
        }
        order.insert(p, i);
        i += 1;
        assert(ints(order@) =~= o.insert(p as int, (i - 1) as int));
    }
    assert(ints(order@) =~= field_order(keys@, repr_c));
    order
}

/// The largest of `floor` and the values of `s`.
fn max_of_in(s: &Vec<u32>, floor: u32) -> (r: u32)
    ensures
        r == max_of(s@, floor),
{
    let mut acc = floor;
    let mut i: usize = 0;
    while i < s.len()
        invariant
            i <= s@.len(),
            acc == max_of(s@.take(i as int), floor),
        decreases s.len() - i,
    {
        assert(s@.take(i + 1).drop_last() =~= s@.take(i as int));
        if s[i] > acc {
            acc = s[i];
        }
        i += 1;
    }
    assert(s@.take(i as int) =~= s@);
    acc
}

/// Copies a string.
fn copy_name(s: &String) -> (r: String)
    ensures
        r@ == s@,
{
    s.clone()
}

/// A struct whose ordered placement fails has no layout.
proof fn lemma_struct_none(fields: Seq<(String, Type)>, keys: Seq<u32>, repr_c: bool, tbl: Seq<(String, TypeDef)>, ps: u32, fuel: nat)
    requires
        aligns_spec(field_types(fields), fields.len() as int, tbl, ps, fuel) == Some(keys),
        ordered_end_spec(field_types(fields), keys, field_order(keys, repr_c), fields.len() as int, tbl, ps, fuel) is None,
    ensures
        struct_total_spec(field_types(fields), repr_c, tbl, ps, fuel) is None,
        struct_layout_spec(fields, repr_c, tbl, ps, fuel) is None,
{
    assert(field_types(fields).len() == fields.len());
}

/// Layout of a struct, as [`struct_layout_spec`] gives it.
fn struct_layout_in(fields: &[(String, Type)], repr_c: bool, tbl: &[(String, TypeDef)], ps: u32, fuel: usize) -> (r: Option<(u32, Vec<(String, FieldLayout)>)>)
    ensures
        r is None <==> struct_layout_spec(fields@, repr_c, tbl@, ps, fuel as nat) is None,
        r is None <==> struct_total_spec(field_types(fields@), repr_c, tbl@, ps, fuel as nat) is None,
        r matches Some(l) ==> struct_layout_spec(fields@, repr_c, tbl@, ps, fuel as nat) == Some((l.0, entries_view(l.1@))),
    decreases fuel, fields@, fields@.len() + 1,
{
    let ghost tys = field_types(fields@);
    let n = fields.len();
    let mut keys: Vec<u32> = Vec::new();
    let mut i: usize = 0;
    while i < n
        invariant
            i <= n,
            n == fields@.len(),
            tys == field_types(fields@),
            aligns_spec(tys, i as int, tbl@, ps, fuel as nat) == Some(keys@),
        decreases n - i,
    {
        assert(tys[i as int] == fields@[i as int].1);
        match align_in(&fields[i].1, tbl, ps, fuel) {
            Some(a) => {
                keys.push(a);
            },
            None => {
                proof {
                    lemma_aligns_none(tys, i + 1, n as int, tbl@, ps, fuel as nat);
                }
                return None;
            },
        }
        i += 1;
    }
    proof {
        lemma_aligns_some(tys, n as int, tbl@, ps, fuel as nat);
    }
    let order = field_order_in(&keys, repr_c);
    let ghost ord = ints(order@);
    proof {
        if !repr_c {
            lemma_stable_order_perm(keys@, n as int);
        }
    }
    assert(ord.len() == n);
    assert(forall|m: int| 0 <= m < n ==> 0 <= #[trigger] ord[m] < n);
    let max_align = max_of_in(&keys, 1);
    let mut current: u32 = 0;
    let mut result: Vec<(String, FieldLayout)> = Vec::new();
    let mut k: usize = 0;
    while k < n
        invariant
            k <= n,
            n == fields@.len(),
            n == keys@.len(),
            tys == field_types(fields@),
            aligns_spec(tys, n as int, tbl@, ps, fuel as nat) == Some(keys@),
            ord == ints(order@),
            ord == field_order(keys@, repr_c),
            ord.len() == n,
            forall|m: int| 0 <= m < n ==> 0 <= #[trigger] ord[m] < n,
            ordered_end_spec(tys, keys@, ord, k as int, tbl@, ps, fuel as nat) == Some(current),
            entries_view(result@) == Seq::new(
                k as nat,
                |m: int|
                    (
                        fields@[ord[m]].0@,
                        FieldLayout {
                            offset: field_offset_spec(tys, keys@, ord, m, tbl@, ps, fuel as nat).unwrap(),
                            size: size_spec(tys[ord[m]], tbl@, ps, fuel as nat).unwrap(),
                        },
                    ),
            ),
        decreases n - k,
    {
        let j = order[k];
        assert(ord[k as int] == j);
        assert(tys[j as int] == fields@[j as int].1);
        let off = match checked_align_up_in(current, keys[j]) {
            Some(o) => o,
            None => {
                proof {
                    lemma_ordered_end_none(tys, keys@, ord, k + 1, n as int, tbl@, ps, fuel as nat);
                    lemma_struct_none(fields@, keys@, repr_c, tbl@, ps, fuel as nat);
                }
                return None;
            },
        };
        let size = match size_in(&fields[j].1, tbl, ps, fuel) {
            Some(z) => z,
            None => {
                proof {
                    lemma_ordered_end_none(tys, keys@, ord, k + 1, n as int, tbl@, ps, fuel as nat);
                    lemma_struct_none(fields@, keys@, repr_c, tbl@, ps, fuel as nat);
                }
                return None;
            },
        };
        let ghost before = entries_view(result@);
        result.push((copy_name(&fields[j].0), FieldLayout { offset: off, size }));
        current = match off.checked_add(size) {
            Some(c) => c,
            None => {
                proof {
                    lemma_ordered_end_none(tys, keys@, ord, k + 1, n as int, tbl@, ps, fuel as nat);
                    lemma_struct_none(fields@, keys@, repr_c, tbl@, ps, fuel as nat);
                }
                return None;
            },
        };
        k += 1;
        assert(entries_view(result@) =~= before.push(entries_view(result@).last()));
        assert(entries_view(result@) =~= Seq::new(
            k as nat,
            |m: int|
                (
                    fields@[ord[m]].0@,
                    FieldLayout {
                        offset: field_offset_spec(tys, keys@, ord, m, tbl@, ps, fuel as nat).unwrap(),
                        size: size_spec(tys[ord[m]], tbl@, ps, fuel as nat).unwrap(),
                    },
                ),
        ));
    }
    match checked_align_up_in(current, max_align) {
        Some(total) => {
            assert(struct_total_spec(tys, repr_c, tbl@, ps, fuel as nat) == Some(total));
            Some((total, result))
        },
        None => None,
    }
}

/// Layout of an enum, as [`enum_spec`] gives it.
fn enum_layout_in(variants: &[Vec<Type>], tbl: &[(String, TypeDef)], ps: u32, fuel: usize) -> (r: Option<(u32, u32, u32)>)
    ensures
        r == enum_spec(variants@, tbl@, ps, fuel as nat),
    decreases fuel, variants@, variants@.len() + 1,
{
    let n = variants.len();
    if n == 0 {
        return Some((1, 0, 1));
    }
    let disc: u32 = if n <= 256 { 1 } else { 2 };
    let mut max_size: u32 = 0;
    let mut max_align: u32 = 1;
    let mut i: usize = 0;
    while i < n
        invariant
            i <= n,
            n == variants@.len(),
            variants_fold_spec(variants@, i as int, tbl@, ps, fuel as nat) == Some((max_size, max_align)),
        decreases n - i,
    {
        let v = variants[i].as_slice();
        let e = seq_end_in(v, tbl, ps, fuel);
        let va = max_align_in(v, 1, tbl, ps, fuel);
        let vs = match (e, va) {
            (Some(e), Some(va)) => checked_align_up_in(e, va),
            _ => None,
        };
        match (vs, va) {
            (Some(vs), Some(va)) => {
                if vs > max_size {
                    max_size = vs;
                }
                if va > max_align {
                    max_align = va;
                }
            },
            _ => {
                proof {
                    lemma_variants_fold_none(variants@, i + 1, n as int, tbl@, ps, fuel as nat);
                }
                return None;
            },
        }
        i += 1;
    }
    let data_offset = match checked_align_up_in(disc, max_align) {
        Some(d) => d,
        None => return None,
    };
    let end = match data_offset.checked_add(max_size) {
        Some(e) => e,
        None => return None,
    };
    match checked_align_up_in(end, max_align) {
        Some(total) => Some((total, data_offset, disc)),
        None => None,
    }
}

/// Offset of element `index` of a tuple: the end of the elements before it,
/// rounded up to its alignment. Past the last element it is zero, once the
/// whole tuple has been placed.
pub open spec fn tuple_field_offset_spec(index: int, elems: Seq<Type>, tbl: Seq<(String, TypeDef)>, ps: u32, fuel: nat) -> Option<u32> {
    if elems.len() == 0 {
        Some(0)
    } else if 0 <= index < elems.len() {
        match (seq_end_spec(elems, index, tbl, ps, fuel), align_spec(elems[index], tbl, ps, fuel)) {
            (Some(e), Some(a)) => checked_align_up(e, a),
            _ => None,
        }
    } else {
        match seq_end_spec(elems, elems.len() as int, tbl, ps, fuel) {
            Some(_) => Some(0),
            None => None,
        }
    }
}

/// How many named definitions a layout may enter one inside another: one
/// per entry of the table, which an acyclic table never exceeds.
pub open spec fn table_fuel(types: Seq<(String, TypeDef)>) -> nat {
    types.len()
}

/// Size in bytes of `t`, with `types` giving the user types by name and
/// `pointer_size` the size of a pointer.
///
/// Requires that the computation ends and stays within `u32`: no named type
/// may contain itself, and no size or offset may overflow.
pub fn size_of(t: &Type, types: &[(String, TypeDef)], pointer_size: u32) -> (r: u32)
    requires
        size_spec(*t, types@, pointer_size, table_fuel(types@)) is Some,
    ensures
        size_spec(*t, types@, pointer_size, table_fuel(types@)) == Some(r),
{
    size_in(t, types, pointer_size, types.len()).unwrap()
}

/// Alignment in bytes of `t`.
///
/// Requires that no named type contains itself.
pub fn align_of(t: &Type, types: &[(String, TypeDef)], pointer_size: u32) -> (r: u32)
    requires
        align_spec(*t, types@, pointer_size, table_fuel(types@)) is Some,
    ensures
        align_spec(*t, types@, pointer_size, table_fuel(types@)) == Some(r),
{
    align_in(t, types, pointer_size, types.len()).unwrap()
}

/// Offset of element `index` of a tuple with element types `elements`;
/// zero for an index past the end.
pub fn tuple_field_offset(index: usize, elements: &[Type], types: &[(String, TypeDef)], pointer_size: u32) -> (r: u32)
    requires
        tuple_field_offset_spec(index as int, elements@, types@, pointer_size, table_fuel(types@)) is Some,
    ensures
        tuple_field_offset_spec(index as int, elements@, types@, pointer_size, table_fuel(types@)) == Some(r),
{
    let ghost fuel = table_fuel(types@);
    if elements.len() == 0 {
        return 0;
    }
    let mut offset: u32 = 0;
    let mut i: usize = 0;
    while i < elements.len()
        invariant
            i <= elements@.len(),
            elements@.len() > 0,
            i <= index || index >= elements@.len(),
            fuel == types@.len(),
            tuple_field_offset_spec(index as int, elements@, types@, pointer_size, fuel) is Some,
            seq_end_spec(elements@, i as int, types@, pointer_size, fuel) == Some(offset),
        decreases elements.len() - i,
    {
        let elem_align = align_in(&elements[i], types, pointer_size, types.len());
        let next = match elem_align {
            Some(a) => checked_align_up_in(offset, a),
            None => None,
        };
        if next.is_none() {
            proof {
                if i < index && index < elements@.len() {
                    lemma_seq_end_none(elements@, i + 1, index as int, types@, pointer_size, fuel);
                } else if index >= elements@.len() {
                    lemma_seq_end_none(elements@, i + 1, elements@.len() as int, types@, pointer_size, fuel);
                }
            }
        }
        offset = next.unwrap();
        if i == index {
            return offset;
        }
        let size = size_in(&elements[i], types, pointer_size, types.len());
        let next = match size {
            Some(z) => offset.checked_add(z),
            None => None,
        };
        if next.is_none() {
            proof {
                if index < elements@.len() {
                    lemma_seq_end_none(elements@, i + 1, index as int, types@, pointer_size, fuel);
                } else {
                    lemma_seq_end_none(elements@, i + 1, elements@.len() as int, types@, pointer_size, fuel);
                }
            }
        }
        offset = next.unwrap();
        i += 1;
    }
    0
}

/// Layout of a struct with the given fields: its total size and, in the
/// order the fields are placed, each field's name, offset and size. Unless
/// `repr_c`, fields are placed by decreasing alignment, fields of equal
/// alignment in declaration order; the total is rounded up to the largest
/// alignment.
pub fn struct_layout(fields: &[(String, Type)], repr_c: bool, types: &[(String, TypeDef)], pointer_size: u32) -> (r: (u32, Vec<(String, FieldLayout)>))
    requires
        struct_layout_spec(fields@, repr_c, types@, pointer_size, table_fuel(types@)) is Some,
    ensures
        struct_layout_spec(fields@, repr_c, types@, pointer_size, table_fuel(types@)) == Some((r.0, entries_view(r.1@))),
{
    struct_layout_in(fields, repr_c, types, pointer_size, types.len()).unwrap()
}

/// Layout of an enum with the given variant payload types: total size,
/// payload offset and discriminant size. The discriminant takes one byte
/// for up to 256 variants, else two; the payload follows it at the largest
/// payload alignment.
pub fn enum_layout(variant_data: &[Vec<Type>], types: &[(String, TypeDef)], pointer_size: u32) -> (r: (u32, u32, u32))
    requires
        enum_spec(variant_data@, types@, pointer_size, table_fuel(types@)) is Some,
    ensures
        enum_spec(variant_data@, types@, pointer_size, table_fuel(types@)) == Some(r),
{
    enum_layout_in(variant_data, types, pointer_size, types.len()).unwrap()
}

/// What [`first_below`] finds: every field it passes has an alignment of at
/// least `key`, and the field it stops at (if any) has a smaller one.
proof fn lemma_first_below_spec(order: Seq<int>, keys: Seq<u32>, key: u32, p: int)
    requires
        0 <= p <= order.len(),
        forall|i: int| 0 <= i < order.len() ==> 0 <= #[trigger] order[i] < keys.len(),
    ensures
        p <= first_below(order, keys, key, p) <= order.len(),
        forall|q: int| p <= q < first_below(order, keys, key, p) ==> keys[#[trigger] order[q]] >= key,
        first_below(order, keys, key, p) < order.len() ==> keys[order[first_below(order, keys, key, p)]] < key,
    decreases order.len() - p,
{
    if p < order.len() {
        lemma_first_below_spec(order, keys, key, p + 1);
    }
}

/// Fields that are not `repr(C)` are placed by decreasing alignment, and
/// fields of equal alignment keep their declaration order.
pub proof fn law_field_order_sorted(keys: Seq<u32>, n: int)
    requires
        0 <= n <= keys.len(),
    ensures
        forall|a: int, b: int|
            0 <= a < b < n ==> keys[#[trigger] stable_order(keys, n)[a]] >= keys[#[trigger] stable_order(keys, n)[b]],
        forall|a: int, b: int|
            0 <= a < b < n && keys[#[trigger] stable_order(keys, n)[a]] == keys[#[trigger] stable_order(keys, n)[b]]
                ==> stable_order(keys, n)[a] < stable_order(keys, n)[b],
    decreases n,
{
    if n > 0 {
        law_field_order_sorted(keys, n - 1);
        lemma_stable_order_perm(keys, n - 1);
        let o = stable_order(keys, n - 1);
        let k = keys[n - 1];
        let p = first_below(o, keys, k, 0);
        lemma_first_below_spec(o, keys, k, 0);
        let r = o.insert(p, n - 1);
        assert(r == stable_order(keys, n));
        assert forall|q: int| p <= q < o.len() implies keys[#[trigger] o[q]] < k by {
            if q > p {
                assert(keys[o[p]] >= keys[o[q]]);
            }
        }
        assert forall|a: int, b: int| 0 <= a < b < n implies keys[#[trigger] r[a]] >= keys[#[trigger] r[b]]
            && (keys[r[a]] == keys[r[b]] ==> r[a] < r[b]) by {
            let oa = if a < p { a } else { a - 1 };
            let ob = if b < p { b } else { b - 1 };
            if a != p {
                assert(r[a] == o[oa]);
            }
            if b != p {
                assert(r[b] == o[ob]);
            }
            if a != p && b != p {
                assert(oa < ob);
            }
        }
    }
}

/// Placed in order, each field ends before the next begins, and the last
/// ends within the total size.
pub proof fn law_struct_fields_disjoint(fields: Seq<(String, Type)>, repr_c: bool, tbl: Seq<(String, TypeDef)>, ps: u32, fuel: nat)
    requires
        struct_layout_spec(fields, repr_c, tbl, ps, fuel) is Some,
    ensures
        ({
            let (total, entries) = struct_layout_spec(fields, repr_c, tbl, ps, fuel).unwrap();
            &&& entries.len() == fields.len()
            &&& forall|k: int| 0 <= k < entries.len() - 1 ==>
                #[trigger] entries[k].1.offset + entries[k].1.size <= entries[k + 1].1.offset
            &&& entries.len() > 0 ==> entries.last().1.offset + entries.last().1.size <= total
        }),
{
    let tys = field_types(fields);
    let keys = aligns_spec(tys, tys.len() as int, tbl, ps, fuel).unwrap();
    lemma_aligns_some(tys, tys.len() as int, tbl, ps, fuel);
    let order = field_order(keys, repr_c);
    let n = fields.len() as int;
    if !repr_c {
        lemma_stable_order_perm(keys, n);
    }
    assert(order.len() == n);
    assert forall|k: int| 0 <= k <= n implies ordered_end_spec(tys, keys, order, k, tbl, ps, fuel) is Some by {
        if ordered_end_spec(tys, keys, order, k, tbl, ps, fuel) is None && k > 0 {
            lemma_ordered_end_none(tys, keys, order, k, n, tbl, ps, fuel);
        }
    }
    let (total, entries) = struct_layout_spec(fields, repr_c, tbl, ps, fuel).unwrap();
    assert forall|k: int| 0 <= k < n implies {
        &&& #[trigger] entries[k].1.offset + entries[k].1.size == ordered_end_spec(tys, keys, order, k + 1, tbl, ps, fuel).unwrap()
        &&& ordered_end_spec(tys, keys, order, k, tbl, ps, fuel).unwrap() <= entries[k].1.offset
    } by {
        assert(ordered_end_spec(tys, keys, order, k + 1, tbl, ps, fuel) is Some);
        let e = ordered_end_spec(tys, keys, order, k, tbl, ps, fuel).unwrap();
        let key = keys[order[k]];
        lemma_align_up_bounds(e, key);
    }
    if n > 0 {
        let e = ordered_end_spec(tys, keys, order, n, tbl, ps, fuel).unwrap();
        lemma_align_up_bounds(e, max_of(keys, 1));
        assert(entries.last() == entries[n - 1]);
    }
    assert forall|k: int| 0 <= k < entries.len() - 1 implies
        #[trigger] entries[k].1.offset + entries[k].1.size <= entries[k + 1].1.offset by {
        assert(entries[k + 1].1.offset >= ordered_end_spec(tys, keys, order, k + 1, tbl, ps, fuel).unwrap());
    }
}

/// Rounding up never moves an offset back, nor by a whole alignment.
proof fn lemma_align_up_bounds(offset: u32, alignment: u32)
    requires
        align_up_fits(offset, alignment),
    ensures
        offset <= align_up_value(offset, alignment),
        alignment > 1 ==> align_up_value(offset, alignment) < offset + alignment,
{
    if alignment > 1 {
        let m: u32 = (alignment - 1) as u32;
        let x: u32 = (offset + m) as u32;
        assert(x == offset + m ==> offset <= (x & !m) && (x & !m) <= x) by (bit_vector);
    }
}

/// The payload of an enum starts after its discriminant and ends within the
/// total size.
pub proof fn law_enum_payload_fits(variants: Seq<Vec<Type>>, tbl: Seq<(String, TypeDef)>, ps: u32, fuel: nat)
    requires
        enum_spec(variants, tbl, ps, fuel) is Some,
        variants.len() > 0,
    ensures
        ({
            let (total, data_offset, disc) = enum_spec(variants, tbl, ps, fuel).unwrap();
            let (max_size, _) = variants_fold_spec(variants, variants.len() as int, tbl, ps, fuel).unwrap();
            &&& disc <= data_offset
            &&& data_offset + max_size <= total
        }),
{
    let (max_size, max_align) = variants_fold_spec(variants, variants.len() as int, tbl, ps, fuel).unwrap();
    let disc: u32 = if variants.len() <= 256 { 1 } else { 2 };
    lemma_align_up_bounds(disc, max_align);
    let data_offset = align_up_value(disc, max_align);
    lemma_align_up_bounds((data_offset + max_size) as u32, max_align);
}

/// The size and alignment of every primitive, whatever the type table and
/// fuel: 1 for `int8`, `uint8` and `bool`; 2 for the 16-bit integers; 4 for
/// the 32-bit integers, `float32` and `char`; 8 for the 64-bit integers and
/// `float64`; 16 for the 128-bit integers; the pointer size for `isize`,
/// `usize` and `str`; 0 with alignment 1 for `unit`. In particular a
/// signed and an unsigned integer of the same width lay out alike.
pub proof fn law_primitive_layout_table(tbl: Seq<(String, TypeDef)>, ps: u32, fuel: nat)
    ensures
        size_spec(Type::Primitive(Primitive::Int8), tbl, ps, fuel) == Some(1u32),
        size_spec(Type::Primitive(Primitive::UInt8), tbl, ps, fuel) == Some(1u32),
        size_spec(Type::Primitive(Primitive::Bool), tbl, ps, fuel) == Some(1u32),
        size_spec(Type::Primitive(Primitive::Int16), tbl, ps, fuel) == Some(2u32),
        size_spec(Type::Primitive(Primitive::UInt16), tbl, ps, fuel) == Some(2u32),
        size_spec(Type::Primitive(Primitive::Int32), tbl, ps, fuel) == Some(4u32),
        size_spec(Type::Primitive(Primitive::UInt32), tbl, ps, fuel) == Some(4u32),
        size_spec(Type::Primitive(Primitive::Float32), tbl, ps, fuel) == Some(4u32),
        size_spec(Type::Primitive(Primitive::Char), tbl, ps, fuel) == Some(4u32),
        size_spec(Type::Primitive(Primitive::Int64), tbl, ps, fuel) == Some(8u32),
        size_spec(Type::Primitive(Primitive::UInt64), tbl, ps, fuel) == Some(8u32),
        size_spec(Type::Primitive(Primitive::Float64), tbl, ps, fuel) == Some(8u32),
        size_spec(Type::Primitive(Primitive::Int128), tbl, ps, fuel) == Some(16u32),
        size_spec(Type::Primitive(Primitive::UInt128), tbl, ps, fuel) == Some(16u32),
        size_spec(Type::Primitive(Primitive::ISize), tbl, ps, fuel) == Some(ps),
        size_spec(Type::Primitive(Primitive::USize), tbl, ps, fuel) == Some(ps),
        size_spec(Type::Primitive(Primitive::Str), tbl, ps, fuel) == Some(ps),
        size_spec(Type::Primitive(Primitive::Unit), tbl, ps, fuel) == Some(0u32),
        align_spec(Type::Primitive(Primitive::Int8), tbl, ps, fuel) == Some(1u32),
        align_spec(Type::Primitive(Primitive::UInt8), tbl, ps, fuel) == Some(1u32),
        align_spec(Type::Primitive(Primitive::Bool), tbl, ps, fuel) == Some(1u32),
        align_spec(Type::Primitive(Primitive::Int16), tbl, ps, fuel) == Some(2u32),
        align_spec(Type::Primitive(Primitive::UInt16), tbl, ps, fuel) == Some(2u32),
        align_spec(Type::Primitive(Primitive::Int32), tbl, ps, fuel) == Some(4u32),
        align_spec(Type::Primitive(Primitive::UInt32), tbl, ps, fuel) == Some(4u32),
        align_spec(Type::Primitive(Primitive::Float32), tbl, ps, fuel) == Some(4u32),
        align_spec(Type::Primitive(Primitive::Char), tbl, ps, fuel) == Some(4u32),
        align_spec(Type::Primitive(Primitive::Int64), tbl, ps, fuel) == Some(8u32),
        align_spec(Type::Primitive(Primitive::UInt64), tbl, ps, fuel) == Some(8u32),
        align_spec(Type::Primitive(Primitive::Float64), tbl, ps, fuel) == Some(8u32),
        align_spec(Type::Primitive(Primitive::Int128), tbl, ps, fuel) == Some(16u32),
        align_spec(Type::Primitive(Primitive::UInt128), tbl, ps, fuel) == Some(16u32),
        align_spec(Type::Primitive(Primitive::ISize), tbl, ps, fuel) == Some(ps),
        align_spec(Type::Primitive(Primitive::USize), tbl, ps, fuel) == Some(ps),
        align_spec(Type::Primitive(Primitive::Str), tbl, ps, fuel) == Some(ps),
        align_spec(Type::Primitive(Primitive::Unit), tbl, ps, fuel) == Some(1u32),
{
}

} // verus!
