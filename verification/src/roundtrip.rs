//! Writing a native value and reading the host value back gives the value
//! again. This holds of every value that can be written without loss, and
//! this module says which those are.

use crate::de::{
    decode, decode_entries, decode_fields, decode_items, decode_slots, decode_tuple, field_index,
    finish_fields, is_absent, lemma_field_index, variant_index,
};
use crate::errors::ErrorView;
use crate::native::{NativeView, Shape, VariantShape};
use crate::number::{
    lemma_nearest_bits_bounds, lemma_nearest_bits_inexact, lemma_nearest_round_trip,
    lemma_nearest_saturated, lemma_small_representable, magnitude_of, nearest_bits,
    representable, Double, SIGN_BIT,
};
use crate::ser::{encode, encode_entries, encode_fields, encode_items};
use crate::value::{distinct_keys, first_index, lemma_first_index, HostView};
use vstd::prelude::*;
use vstd::utf8::encode_utf8;

verus! {

/// Each of the items is a value of its shape that comes back.
pub open spec fn items_fit(limit: usize, items: Seq<NativeView>, shapes: Seq<Shape>) -> bool
    decreases items, 1nat,
{
    &&& items.len() == shapes.len()
    &&& forall|i: int| 0 <= i < items.len() ==> fits(limit, #[trigger] items[i], shapes[i])
}

/// Each of the fields has the name that its shape has, a name that the host
/// takes and that no other field has, and is a value of its shape that comes
/// back.
pub open spec fn fields_fit(
    limit: usize,
    values: Seq<(Seq<char>, NativeView)>,
    fields: Seq<(String, Shape)>,
) -> bool
    decreases values, 1nat,
{
    &&& values.len() == fields.len()
    &&& forall|i: int|
        0 <= i < values.len() ==> {
            &&& (#[trigger] values[i]).0 == fields[i].0@
            &&& encode_utf8(values[i].0).len() <= limit
            &&& fits(limit, values[i].1, fields[i].1)
        }
    &&& forall|i: int, j: int|
        0 <= i < j < values.len() ==> (#[trigger] values[i]).0 != (#[trigger] values[j]).0
}

/// The value is one of the shape, and nothing of it is lost on the way to the
/// host and back:
/// - a 64-bit integer is one that a double can hold;
/// - a string, a character, the name of a field or of a variant is no longer
///   than the host allows, and bytes are no more than a buffer holds;
/// - what an option holds is not written as null;
/// - the keys of a map are written as values that differ from each other, and
///   the fields of a struct have names that differ from each other;
/// - a tuple has as many items as its shape, and a variant is one that the
///   enum has, of the kind that the enum says;
/// - a value that is read for what it says itself is the unit, a boolean, a
///   64-bit integer with sign, a double with a fractional part, a string,
///   bytes, or a sequence or a map of such values.
pub open spec fn fits(limit: usize, v: NativeView, shape: Shape) -> bool
    decreases v, 0nat,
{
    match shape {
        Shape::Bool => v is Bool,
        Shape::I8 => v is I8,
        Shape::I16 => v is I16,
        Shape::I32 => v is I32,
        Shape::I64 => v matches NativeView::I64(k) && representable(magnitude_of(k as int)),
        Shape::U8 => v is U8,
        Shape::U16 => v is U16,
        Shape::U32 => v is U32,
        Shape::U64 => v matches NativeView::U64(k) && representable(k as nat),
        Shape::F64 => v is F64,
        Shape::Char => v matches NativeView::Char(c) && encode_utf8(seq![c]).len() <= limit,
        Shape::Str => v matches NativeView::Str(s) && encode_utf8(s).len() <= limit,
        Shape::Bytes => v matches NativeView::Bytes(b) && b.len() <= u32::MAX,
        Shape::Optional(inner) => match v {
            NativeView::Absent => true,
            NativeView::Present(x) => {
                &&& fits(limit, *x, *inner)
                &&& encode(limit, *x) matches Ok(h) && !is_absent(h)
            },
            _ => false,
        },
        Shape::Unit => v is Unit,
        Shape::Sequence(elem) => v matches NativeView::Sequence(items) && forall|i: int|
            0 <= i < items.len() ==> fits(limit, #[trigger] items[i], *elem),
        Shape::Tuple(shapes) => v matches NativeView::Sequence(items) && items_fit(
            limit,
            items,
            shapes@,
        ),
        Shape::Mapping(key, value) => v matches NativeView::Mapping(entries) && {
            &&& forall|i: int|
                0 <= i < entries.len() ==> fits(limit, (#[trigger] entries[i]).0, *key) && fits(
                    limit,
                    entries[i].1,
                    *value,
                )
            &&& forall|i: int, j: int|
                0 <= i < j < entries.len() ==> encode(limit, (#[trigger] entries[i]).0) != encode(
                    limit,
                    (#[trigger] entries[j]).0,
                )
        },
        Shape::Struct(fields) => v matches NativeView::Struct(values) && fields_fit(
            limit,
            values,
            fields@,
        ),
        Shape::Enum(variants) => match v {
            NativeView::UnitVariant(tag) => {
                let index = variant_index(variants@, tag, 0);
                &&& 0 <= index < variants@.len()
                &&& variants@[index].1 is Unit
                &&& encode_utf8(tag).len() <= limit
            },
            NativeView::NewtypeVariant(tag, x) => {
                let index = variant_index(variants@, tag, 0);
                &&& 0 <= index < variants@.len()
                &&& variants@[index].1 matches VariantShape::Newtype(inner) && fits(
                    limit,
                    *x,
                    *inner,
                )
                &&& encode_utf8(tag).len() <= limit
            },
            NativeView::TupleVariant(tag, items) => {
                let index = variant_index(variants@, tag, 0);
                &&& 0 <= index < variants@.len()
                &&& variants@[index].1 matches VariantShape::Tuple(shapes) && items_fit(
                    limit,
                    items,
                    shapes@,
                )
                &&& encode_utf8(tag).len() <= limit
            },
            NativeView::StructVariant(tag, values) => {
                let index = variant_index(variants@, tag, 0);
                &&& 0 <= index < variants@.len()
                &&& variants@[index].1 matches VariantShape::Struct(fields) && fields_fit(
                    limit,
                    values,
                    fields@,
                )
                &&& encode_utf8(tag).len() <= limit
            },
            _ => false,
        },
        Shape::Identifier => v matches NativeView::Str(s) && encode_utf8(s).len() <= limit,
        Shape::IgnoredAny => v is Unit,
        Shape::Any => match v {
            NativeView::Unit => true,
            NativeView::Bool(_) => true,
            NativeView::I64(k) => representable(magnitude_of(k as int)),
            NativeView::F64(d) => !d.is_whole(),
            NativeView::Str(s) => encode_utf8(s).len() <= limit,
            NativeView::Bytes(b) => b.len() <= u32::MAX,
            NativeView::Sequence(items) => forall|i: int|
                0 <= i < items.len() ==> fits(limit, #[trigger] items[i], Shape::Any),
            NativeView::Mapping(entries) => {
                &&& forall|i: int|
                    0 <= i < entries.len() ==> fits(limit, (#[trigger] entries[i]).0, Shape::Any)
                        && fits(limit, entries[i].1, Shape::Any)
                &&& forall|i: int, j: int|
                    0 <= i < j < entries.len() ==> encode(limit, (#[trigger] entries[i]).0)
                        != encode(limit, (#[trigger] entries[j]).0)
            },
            _ => false,
        },
    }
}

/// Among properties with distinct keys, the first with the key of a property
/// is that property.
pub proof fn lemma_first_index_distinct(entries: Seq<(HostView, HostView)>, i: int)
    requires
        distinct_keys(entries),
        0 <= i < entries.len(),
    ensures
        first_index(entries, entries[i].0, 0) == i,
{
    lemma_first_index(entries, entries[i].0, 0);
}

/// A key that no property has is found nowhere.
pub proof fn lemma_first_index_absent(entries: Seq<(HostView, HostView)>, key: HostView)
    requires
        forall|j: int| 0 <= j < entries.len() ==> (#[trigger] entries[j]).0 != key,
    ensures
        first_index(entries, key, 0) == entries.len(),
{
    lemma_first_index(entries, key, 0);
}

/// Items that can each be written are written as an array of what each
/// becomes.
pub proof fn lemma_encode_items_all(limit: usize, items: Seq<NativeView>, hs: Seq<HostView>, n: nat)
    requires
        n <= items.len(),
        n <= hs.len(),
        forall|i: int|
            0 <= i < n ==> encode(limit, #[trigger] items[i]) == Ok::<HostView, ErrorView>(hs[i]),
    ensures
        encode_items(limit, items, n) == Ok::<Seq<HostView>, ErrorView>(hs.take(n as int)),
    decreases n,
{
    if n > 0 {
        lemma_encode_items_all(limit, items, hs, (n - 1) as nat);
        assert(hs.take(n - 1).push(hs[n - 1]) =~= hs.take(n as int));
    } else {
        assert(hs.take(0) =~= Seq::<HostView>::empty());
    }
}

/// Items that can each be read as the shape of their place are read as a
/// tuple of what each is.
pub proof fn lemma_decode_tuple_all(
    hs: Seq<HostView>,
    shapes: Seq<Shape>,
    vs: Seq<NativeView>,
    n: nat,
)
    requires
        n <= hs.len(),
        n <= shapes.len(),
        n <= vs.len(),
        forall|i: int|
            0 <= i < n ==> decode(#[trigger] hs[i], shapes[i]) == Ok::<NativeView, ErrorView>(
                vs[i],
            ),
    ensures
        decode_tuple(hs, shapes, n) == Ok::<Seq<NativeView>, ErrorView>(vs.take(n as int)),
    decreases n,
{
    if n > 0 {
        lemma_decode_tuple_all(hs, shapes, vs, (n - 1) as nat);
        assert(vs.take(n - 1).push(vs[n - 1]) =~= vs.take(n as int));
    } else {
        assert(vs.take(0) =~= Seq::<NativeView>::empty());
    }
}

/// Items that can each be read as one shape are read as a sequence of what
/// each is.
pub proof fn lemma_decode_items_all(hs: Seq<HostView>, elem: Shape, vs: Seq<NativeView>, n: nat)
    requires
        n <= hs.len(),
        n <= vs.len(),
        forall|i: int|
            0 <= i < n ==> decode(#[trigger] hs[i], elem) == Ok::<NativeView, ErrorView>(vs[i]),
    ensures
        decode_items(hs, elem, n) == Ok::<Seq<NativeView>, ErrorView>(vs.take(n as int)),
    decreases n,
{
    if n > 0 {
        lemma_decode_items_all(hs, elem, vs, (n - 1) as nat);
        assert(vs.take(n - 1).push(vs[n - 1]) =~= vs.take(n as int));
    } else {
        assert(vs.take(0) =~= Seq::<NativeView>::empty());
    }
}

/// Entries whose keys and values can each be written, to keys that differ,
/// are written as one property each, in their order.
pub proof fn lemma_encode_entries_all(
    limit: usize,
    entries: Seq<(NativeView, NativeView)>,
    ps: Seq<(HostView, HostView)>,
    n: nat,
)
    requires
        n <= entries.len(),
        n <= ps.len(),
        forall|i: int|
            0 <= i < n ==> {
                &&& encode(limit, (#[trigger] entries[i]).0) == Ok::<HostView, ErrorView>(ps[i].0)
                &&& encode(limit, entries[i].1) == Ok::<HostView, ErrorView>(ps[i].1)
            },
        forall|i: int, j: int| 0 <= i < j < n ==> (#[trigger] ps[i]).0 != (#[trigger] ps[j]).0,
    ensures
        encode_entries(limit, entries, n) == Ok::<Seq<(HostView, HostView)>, ErrorView>(
            ps.take(n as int),
        ),
    decreases n,
{
    if n > 0 {
        lemma_encode_entries_all(limit, entries, ps, (n - 1) as nat);
        let before = ps.take(n - 1);
        assert forall|j: int| 0 <= j < before.len() implies (#[trigger] before[j]).0 != ps[n
            - 1].0 by {
            assert(before[j] == ps[j]);
        }
        lemma_first_index_absent(before, ps[n - 1].0);
        assert(before.push(ps[n - 1]) =~= ps.take(n as int));
    } else {
        assert(ps.take(0) =~= Seq::<(HostView, HostView)>::empty());
    }
}

/// Properties with distinct keys, whose keys and values can each be read, are
/// read as one entry each, in their order.
pub proof fn lemma_decode_entries_all(
    ps: Seq<(HostView, HostView)>,
    key: Shape,
    value: Shape,
    pairs: Seq<(NativeView, NativeView)>,
    n: nat,
)
    requires
        n <= ps.len(),
        n <= pairs.len(),
        distinct_keys(ps),
        forall|i: int|
            0 <= i < n ==> {
                &&& decode((#[trigger] ps[i]).0, key) == Ok::<NativeView, ErrorView>(pairs[i].0)
                &&& decode(ps[i].1, value) == Ok::<NativeView, ErrorView>(pairs[i].1)
            },
    ensures
        decode_entries(ps, key, value, n) == Ok::<Seq<(NativeView, NativeView)>, ErrorView>(
            pairs.take(n as int),
        ),
    decreases n,
{
    if n > 0 {
        lemma_decode_entries_all(ps, key, value, pairs, (n - 1) as nat);
        lemma_first_index_distinct(ps, n - 1);
        assert(pairs.take(n - 1).push(pairs[n - 1]) =~= pairs.take(n as int));
    } else {
        assert(pairs.take(0) =~= Seq::<(NativeView, NativeView)>::empty());
    }
}

/// Fields whose values can each be written, under names that the host takes
/// and that differ, are written as one property each, in their order.
pub proof fn lemma_encode_fields_all(
    limit: usize,
    fields: Seq<(Seq<char>, NativeView)>,
    ps: Seq<(HostView, HostView)>,
    n: nat,
)
    requires
        n <= fields.len(),
        n <= ps.len(),
        forall|i: int|
            0 <= i < n ==> {
                &&& encode(limit, (#[trigger] fields[i]).1) == Ok::<HostView, ErrorView>(ps[i].1)
                &&& ps[i].0 == HostView::String(fields[i].0)
                &&& encode_utf8(fields[i].0).len() <= limit
            },
        forall|i: int, j: int| 0 <= i < j < n ==> (#[trigger] ps[i]).0 != (#[trigger] ps[j]).0,
    ensures
        encode_fields(limit, fields, n) == Ok::<Seq<(HostView, HostView)>, ErrorView>(
            ps.take(n as int),
        ),
    decreases n,
{
    if n > 0 {
        lemma_encode_fields_all(limit, fields, ps, (n - 1) as nat);
        let before = ps.take(n - 1);
        assert forall|j: int| 0 <= j < before.len() implies (#[trigger] before[j]).0 != ps[n
            - 1].0 by {
            assert(before[j] == ps[j]);
        }
        lemma_first_index_absent(before, ps[n - 1].0);
        assert(before.push(ps[n - 1]) =~= ps.take(n as int));
    } else {
        assert(ps.take(0) =~= Seq::<(HostView, HostView)>::empty());
    }
}

/// Among fields with distinct names, the first with the name of a field is
/// that field.
pub proof fn lemma_field_index_distinct(fields: Seq<(String, Shape)>, i: int)
    requires
        forall|a: int, b: int|
            0 <= a < b < fields.len() ==> (#[trigger] fields[a]).0@ != (#[trigger] fields[b]).0@,
        0 <= i < fields.len(),
    ensures
        field_index(fields, fields[i].0@, 0) == i,
{
    lemma_field_index(fields, fields[i].0@, 0);
    let found = field_index(fields, fields[i].0@, 0);
    if found < i {
        assert(fields[found].0@ != fields[i].0@);
    }
}

/// What is known of the fields after the first `n` of as many properties,
/// where each property is named as the field of its place and can be read as
/// that field's shape: the first `n` fields are known, and no other.
pub proof fn lemma_decode_slots_all(
    ps: Seq<(HostView, HostView)>,
    fields: Seq<(String, Shape)>,
    values: Seq<(Seq<char>, NativeView)>,
    n: nat,
)
    requires
        n <= ps.len(),
        ps.len() == fields.len(),
        ps.len() == values.len(),
        distinct_keys(ps),
        forall|a: int, b: int|
            0 <= a < b < fields.len() ==> (#[trigger] fields[a]).0@ != (#[trigger] fields[b]).0@,
        forall|i: int|
            0 <= i < ps.len() ==> {
                &&& (#[trigger] ps[i]).0 == HostView::String(fields[i].0@)
                &&& decode(ps[i].1, fields[i].1) == Ok::<NativeView, ErrorView>(values[i].1)
            },
    ensures
        decode_slots(ps, fields, n) == Ok::<Seq<Option<NativeView>>, ErrorView>(
            Seq::new(
                fields.len(),
                |i: int|
                    if i < n {
                        Some(values[i].1)
                    } else {
                        None
                    },
            ),
        ),
    decreases n,
{
    let known = Seq::new(
        fields.len(),
        |i: int|
            if i < n {
                Some(values[i].1)
            } else {
                None
            },
    );
    if n > 0 {
        lemma_decode_slots_all(ps, fields, values, (n - 1) as nat);
        let before = decode_slots(ps, fields, (n - 1) as nat)->Ok_0;
        lemma_field_index_distinct(fields, n - 1);
        lemma_first_index_distinct(ps, n - 1);
        assert(ps[n - 1].0 == HostView::String(fields[n - 1].0@));
        assert(before[n - 1] is None);
        assert(before.update(n - 1, Some(values[n - 1].1)) =~= known);
    } else {
        assert(known =~= Seq::new(fields.len(), |i: int| None::<NativeView>));
    }
}

/// Fields that are all known are given as they are known, under their names.
pub proof fn lemma_finish_fields_all(
    fields: Seq<(String, Shape)>,
    slots: Seq<Option<NativeView>>,
    values: Seq<(Seq<char>, NativeView)>,
    n: nat,
)
    requires
        n <= fields.len(),
        fields.len() == slots.len(),
        fields.len() == values.len(),
        forall|i: int|
            0 <= i < fields.len() ==> {
                &&& (#[trigger] slots[i]) == Some(values[i].1)
                &&& values[i].0 == fields[i].0@
            },
    ensures
        finish_fields(fields, slots, n) == Ok::<Seq<(Seq<char>, NativeView)>, ErrorView>(
            values.take(n as int),
        ),
    decreases n,
{
    if n > 0 {
        lemma_finish_fields_all(fields, slots, values, (n - 1) as nat);
        assert(slots[n - 1] == Some(values[n - 1].1));
        assert(values.take(n - 1).push(values[n - 1]) =~= values.take(n as int));
    } else {
        assert(values.take(0) =~= Seq::<(Seq<char>, NativeView)>::empty());
    }
}

/// Properties with distinct keys, as many as the fields, each named as the
/// field of its place and readable as that field's shape, are read as the
/// fields.
pub proof fn lemma_decode_fields_all(
    ps: Seq<(HostView, HostView)>,
    fields: Seq<(String, Shape)>,
    values: Seq<(Seq<char>, NativeView)>,
)
    requires
        ps.len() == fields.len(),
        ps.len() == values.len(),
        distinct_keys(ps),
        forall|a: int, b: int|
            0 <= a < b < fields.len() ==> (#[trigger] fields[a]).0@ != (#[trigger] fields[b]).0@,
        forall|i: int|
            0 <= i < ps.len() ==> {
                &&& (#[trigger] ps[i]).0 == HostView::String(fields[i].0@)
                &&& values[i].0 == fields[i].0@
                &&& decode(ps[i].1, fields[i].1) == Ok::<NativeView, ErrorView>(values[i].1)
            },
    ensures
        decode_fields(ps, fields) == Ok::<Seq<(Seq<char>, NativeView)>, ErrorView>(values),
{
    lemma_decode_slots_all(ps, fields, values, ps.len());
    let slots = decode_slots(ps, fields, ps.len())->Ok_0;
    assert forall|i: int| 0 <= i < fields.len() implies (#[trigger] slots[i]) == Some(
        values[i].1,
    ) && values[i].0 == fields[i].0@ by {
        assert(ps[i].0 == HostView::String(fields[i].0@));
    }
    lemma_finish_fields_all(fields, slots, values, fields.len());
    assert(values.take(fields.len() as int) =~= values);
}

/// The items of a tuple come back: written in order they make an array that
/// is read as the same items.
pub proof fn lemma_round_trip_items(limit: usize, items: Seq<NativeView>, shapes: Seq<Shape>)
    requires
        items_fit(limit, items, shapes),
    ensures
        encode_items(limit, items, items.len()) is Ok,
        encode_items(limit, items, items.len())->Ok_0.len() == items.len(),
        decode_tuple(encode_items(limit, items, items.len())->Ok_0, shapes, shapes.len()) == Ok::<
            Seq<NativeView>,
            ErrorView,
        >(items),
        forall|elem: Shape|
            (forall|i: int| 0 <= i < shapes.len() ==> #[trigger] shapes[i] == elem)
                ==> #[trigger] decode_items(
                encode_items(limit, items, items.len())->Ok_0,
                elem,
                items.len(),
            ) == Ok::<Seq<NativeView>, ErrorView>(items),
    decreases items, 1nat,
{
    let hs = Seq::new(items.len(), |i: int| encode(limit, items[i])->Ok_0);
    assert forall|i: int| 0 <= i < items.len() implies encode(limit, #[trigger] items[i]) == Ok::<
        HostView,
        ErrorView,
    >(hs[i]) && decode(hs[i], shapes[i]) == Ok::<NativeView, ErrorView>(items[i]) by {
        lemma_round_trip(limit, items[i], shapes[i]);
    }
    lemma_encode_items_all(limit, items, hs, items.len());
    assert(hs.take(items.len() as int) =~= hs);
    lemma_decode_tuple_all(hs, shapes, items, items.len());
    assert(items.take(items.len() as int) =~= items);
    assert forall|elem: Shape|
        (forall|i: int| 0 <= i < shapes.len() ==> #[trigger] shapes[i] == elem)
            implies #[trigger] decode_items(hs, elem, items.len()) == Ok::<
        Seq<NativeView>,
        ErrorView,
    >(items) by {
        assert forall|i: int| 0 <= i < items.len() implies decode(#[trigger] hs[i], elem) == Ok::<
            NativeView,
            ErrorView,
        >(items[i]) by {
            assert(shapes[i] == elem);
        }
        lemma_decode_items_all(hs, elem, items, items.len());
    }
}

/// The fields of a struct come back: written in order they make an object
/// that is read as the same fields.
pub proof fn lemma_round_trip_fields(
    limit: usize,
    values: Seq<(Seq<char>, NativeView)>,
    fields: Seq<(String, Shape)>,
)
    requires
        fields_fit(limit, values, fields),
    ensures
        encode_fields(limit, values, values.len()) is Ok,
        decode_fields(encode_fields(limit, values, values.len())->Ok_0, fields) == Ok::<
            Seq<(Seq<char>, NativeView)>,
            ErrorView,
        >(values),
    decreases values, 1nat,
{
    let ps = Seq::new(
        values.len(),
        |i: int| (HostView::String(values[i].0), encode(limit, values[i].1)->Ok_0),
    );
    assert forall|i: int| 0 <= i < values.len() implies {
        &&& encode(limit, (#[trigger] values[i]).1) == Ok::<HostView, ErrorView>(ps[i].1)
        &&& decode(ps[i].1, fields[i].1) == Ok::<NativeView, ErrorView>(values[i].1)
    } by {
        lemma_round_trip(limit, values[i].1, fields[i].1);
    }
    assert forall|i: int, j: int| 0 <= i < j < values.len() implies (#[trigger] ps[i]).0 != (
    #[trigger] ps[j]).0 by {
        assert(values[i].0 != values[j].0);
    }
    assert forall|a: int, b: int| 0 <= a < b < fields.len() implies (#[trigger] fields[a]).0@ != (
    #[trigger] fields[b]).0@ by {
        assert(values[a].0 != values[b].0);
    }
    assert forall|i: int| 0 <= i < ps.len() implies {
        &&& (#[trigger] ps[i]).0 == HostView::String(fields[i].0@)
        &&& values[i].0 == fields[i].0@
    } by {
        assert(values[i].0 == fields[i].0@);
    }
    lemma_encode_fields_all(limit, values, ps, values.len());
    assert(ps.take(values.len() as int) =~= ps);
    lemma_decode_fields_all(ps, fields, values);
}

/// The entries of a map come back: written in order they make an object that
/// is read as the same entries.
pub proof fn lemma_round_trip_entries(
    limit: usize,
    entries: Seq<(NativeView, NativeView)>,
    key: Shape,
    value: Shape,
)
    requires
        forall|i: int|
            0 <= i < entries.len() ==> fits(limit, (#[trigger] entries[i]).0, key) && fits(
                limit,
                entries[i].1,
                value,
            ),
        forall|i: int, j: int|
            0 <= i < j < entries.len() ==> encode(limit, (#[trigger] entries[i]).0) != encode(
                limit,
                (#[trigger] entries[j]).0,
            ),
    ensures
        encode_entries(limit, entries, entries.len()) is Ok,
        decode_entries(
            encode_entries(limit, entries, entries.len())->Ok_0,
            key,
            value,
            entries.len(),
        ) == Ok::<Seq<(NativeView, NativeView)>, ErrorView>(entries),
        encode_entries(limit, entries, entries.len())->Ok_0.len() == entries.len(),
    decreases entries, 1nat,
{
    let ps = Seq::new(
        entries.len(),
        |i: int| (encode(limit, entries[i].0)->Ok_0, encode(limit, entries[i].1)->Ok_0),
    );
    assert forall|i: int| 0 <= i < entries.len() implies {
        &&& encode(limit, (#[trigger] entries[i]).0) == Ok::<HostView, ErrorView>(ps[i].0)
        &&& encode(limit, entries[i].1) == Ok::<HostView, ErrorView>(ps[i].1)
        &&& decode(ps[i].0, key) == Ok::<NativeView, ErrorView>(entries[i].0)
        &&& decode(ps[i].1, value) == Ok::<NativeView, ErrorView>(entries[i].1)
    } by {
        lemma_round_trip(limit, entries[i].0, key);
        lemma_round_trip(limit, entries[i].1, value);
    }
    assert forall|i: int, j: int| 0 <= i < j < entries.len() implies (#[trigger] ps[i]).0 != (
    #[trigger] ps[j]).0 by {
        assert(encode(limit, entries[i].0) != encode(limit, entries[j].0));
    }
    lemma_encode_entries_all(limit, entries, ps, entries.len());
    assert(ps.take(entries.len() as int) =~= ps);
    lemma_decode_entries_all(ps, key, value, entries, entries.len());
    assert(entries.take(entries.len() as int) =~= entries);
}

/// Round-trip identity: a value that fits its shape is written as a host
/// value that is read, as that shape, as the same value.
pub proof fn lemma_round_trip(limit: usize, v: NativeView, shape: Shape)
    requires
        fits(limit, v, shape),
    ensures
        encode(limit, v) is Ok,
        decode(encode(limit, v)->Ok_0, shape) == Ok::<NativeView, ErrorView>(v),
    decreases v, 0nat,
{
    match shape {
        Shape::Bool => {},
        Shape::I8 => {
            let k = v->I8_0 as int;
            lemma_small_representable(magnitude_of(k));
            lemma_nearest_round_trip(k, i8::MIN as int, i8::MAX as int);
        },
        Shape::I16 => {
            let k = v->I16_0 as int;
            lemma_small_representable(magnitude_of(k));
            lemma_nearest_round_trip(k, i16::MIN as int, i16::MAX as int);
        },
        Shape::I32 => {
            let k = v->I32_0 as int;
            lemma_small_representable(magnitude_of(k));
            lemma_nearest_round_trip(k, i32::MIN as int, i32::MAX as int);
        },
        Shape::I64 => {
            lemma_nearest_round_trip(v->I64_0 as int, i64::MIN as int, i64::MAX as int);
        },
        Shape::U8 => {
            let k = v->U8_0 as int;
            lemma_small_representable(magnitude_of(k));
            lemma_nearest_round_trip(k, 0, u8::MAX as int);
        },
        Shape::U16 => {
            let k = v->U16_0 as int;
            lemma_small_representable(magnitude_of(k));
            lemma_nearest_round_trip(k, 0, u16::MAX as int);
        },
        Shape::U32 => {
            let k = v->U32_0 as int;
            lemma_small_representable(magnitude_of(k));
            lemma_nearest_round_trip(k, 0, u32::MAX as int);
        },
        Shape::U64 => {
            lemma_nearest_round_trip(v->U64_0 as int, 0, u64::MAX as int);
        },
        Shape::F64 => {},
        Shape::Char => {},
        Shape::Str => {},
        Shape::Bytes => {},
        Shape::Optional(inner) => {
            match v {
                NativeView::Present(x) => {
                    lemma_round_trip(limit, *x, *inner);
                },
                _ => {},
            }
        },
        Shape::Unit => {},
        Shape::Sequence(elem) => {
            let items = v->Sequence_0;
            let shapes = Seq::new(items.len(), |i: int| *elem);
            lemma_round_trip_items(limit, items, shapes);
            let hs = encode_items(limit, items, items.len())->Ok_0;
            assert(decode_items(hs, *elem, items.len()) == Ok::<Seq<NativeView>, ErrorView>(items));
        },
        Shape::Tuple(shapes) => {
            let items = v->Sequence_0;
            lemma_round_trip_items(limit, items, shapes@);
        },
        Shape::Mapping(key, value) => {
            lemma_round_trip_entries(limit, v->Mapping_0, *key, *value);
        },
        Shape::Struct(fields) => {
            lemma_round_trip_fields(limit, v->Struct_0, fields@);
        },
        Shape::Enum(variants) => {
            match v {
                NativeView::UnitVariant(tag) => {},
                NativeView::NewtypeVariant(tag, x) => {
                    let index = variant_index(variants@, tag, 0);
                    lemma_round_trip(limit, *x, *variants@[index].1->Newtype_0);
                },
                NativeView::TupleVariant(tag, items) => {
                    let index = variant_index(variants@, tag, 0);
                    lemma_round_trip_items(limit, items, variants@[index].1->Tuple_0@);
                },
                NativeView::StructVariant(tag, values) => {
                    let index = variant_index(variants@, tag, 0);
                    lemma_round_trip_fields(limit, values, variants@[index].1->Struct_0@);
                },
                _ => {},
            }
        },
        Shape::Identifier => {},
        Shape::IgnoredAny => {},
        Shape::Any => {
            match v {
                NativeView::I64(k) => {
                    lemma_nearest_saturated(k);
                },
                NativeView::Sequence(items) => {
                    let shapes = Seq::new(items.len(), |i: int| Shape::Any);
                    lemma_round_trip_items(limit, items, shapes);
                    let hs = encode_items(limit, items, items.len())->Ok_0;
                    assert(decode_items(hs, Shape::Any, items.len()) == Ok::<
                        Seq<NativeView>,
                        ErrorView,
                    >(items));
                },
                NativeView::Mapping(entries) => {
                    lemma_round_trip_entries(limit, entries, Shape::Any, Shape::Any);
                },
                _ => {},
            }
        },
    }
}

/// An unsigned integer that no double holds does not come back: it is read
/// as another integer, or as none.
pub proof fn lemma_unrepresentable_unsigned_is_lost(limit: usize, k: u64)
    requires
        !representable(k as nat),
    ensures
        encode(limit, NativeView::U64(k)) is Ok,
        decode(encode(limit, NativeView::U64(k))->Ok_0, Shape::U64) != Ok::<
            NativeView,
            ErrorView,
        >(NativeView::U64(k)),
{
    lemma_nearest_bits_inexact(k as nat);
    lemma_nearest_bits_bounds(k as nat);
}

/// A signed integer that no double holds does not come back: it is read as
/// another integer, or as none.
pub proof fn lemma_unrepresentable_signed_is_lost(limit: usize, k: i64)
    requires
        !representable(magnitude_of(k as int)),
    ensures
        encode(limit, NativeView::I64(k)) is Ok,
        decode(encode(limit, NativeView::I64(k))->Ok_0, Shape::I64) != Ok::<
            NativeView,
            ErrorView,
        >(NativeView::I64(k)),
{
    let n = magnitude_of(k as int);
    lemma_nearest_bits_inexact(n);
    lemma_nearest_bits_bounds(n);
    let low = Double { bits: nearest_bits(n) as u64 };
    let d = Double::nearest(k as int);
    if k < 0 {
        assert(d.bits == SIGN_BIT + low.bits);
        assert(d.exponent() == low.exponent());
        assert(d.fraction() == low.fraction());
    }
    assert(d.magnitude() == low.magnitude());
}

/// An option whose value is written as null or undefined does not come back:
/// it is read as an option without a value.
pub proof fn lemma_present_null_is_lost(limit: usize, x: NativeView, inner: Shape)
    requires
        encode(limit, x) matches Ok(h) && is_absent(h),
    ensures
        decode(encode(limit, NativeView::Present(Box::new(x)))->Ok_0, Shape::Optional(Box::new(inner)))
            == Ok::<NativeView, ErrorView>(NativeView::Absent),
{
}

} // verus!
