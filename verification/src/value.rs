//! The values of the host: what a JavaScript runtime hands to native code, as
//! a closed union. Arrays and objects hold their children; an object is the
//! list of its own properties in the order in which the host enumerates them.

use crate::number::Double;
use crate::text::{signed_decimal, signed_decimal_string};
use vstd::prelude::*;

verus! {

/// A value of the host.
#[derive(Debug, PartialEq)]
pub enum HostValue {
    Null,
    Undefined,
    Boolean(bool),
    /// A number that the host holds as an integer.
    Integer(i64),
    /// A number that the host holds as a double.
    Number(Double),
    String(String),
    Array(Vec<HostValue>),
    /// The own properties, each a key and its value.
    Object(Vec<(HostValue, HostValue)>),
    /// Raw bytes.
    Buffer(Vec<u8>),
    Function,
    /// Anything else the host may hold.
    Other,
}

/// The length that V8 allows a string on a 64-bit machine, taken here as a
/// number of bytes.
pub const MAX_STRING_LENGTH: usize = 0x1fff_ffe8;

/// What the bridge has to know of the host it builds values for.
#[derive(Clone, Copy, Debug, PartialEq, Eq)]
pub struct Context {
    /// The longest string, in bytes, that the host holds.
    pub max_string_length: usize,
}

impl Context {
    /// A host with the limits of V8.
    pub fn new() -> (cx: Context)
        ensures
            cx.max_string_length == MAX_STRING_LENGTH,
    {
        Context { max_string_length: MAX_STRING_LENGTH }
    }
}

/// The mathematical content of a [`HostValue`].
pub enum HostView {
    Null,
    Undefined,
    Boolean(bool),
    Integer(i64),
    Number(Double),
    String(Seq<char>),
    Array(Seq<HostView>),
    Object(Seq<(HostView, HostView)>),
    Buffer(Seq<u8>),
    Function,
    Other,
}

/// Which of its kinds a host value is.
#[derive(Clone, Copy, Debug, PartialEq, Eq, Structural)]
pub enum Tag {
    Null,
    Undefined,
    Boolean,
    Integer,
    Number,
    String,
    Array,
    Object,
    Buffer,
    Function,
    Other,
}

/// The content of a host value: its own, and that of its children.
pub open spec fn host_view(h: HostValue) -> HostView
    decreases h,
{
    match h {
        HostValue::Null => HostView::Null,
        HostValue::Undefined => HostView::Undefined,
        HostValue::Boolean(b) => HostView::Boolean(b),
        HostValue::Integer(i) => HostView::Integer(i),
        HostValue::Number(d) => HostView::Number(d),
        HostValue::String(s) => HostView::String(s@),
        HostValue::Array(items) => HostView::Array(
            Seq::new(
                items@.len(),
                |i: int|
                    if 0 <= i < items@.len() {
                        host_view(items@[i])
                    } else {
                        HostView::Undefined
                    },
            ),
        ),
        HostValue::Object(entries) => HostView::Object(
            Seq::new(
                entries@.len(),
                |i: int|
                    if 0 <= i < entries@.len() {
                        (host_view(entries@[i].0), host_view(entries@[i].1))
                    } else {
                        (HostView::Undefined, HostView::Undefined)
                    },
            ),
        ),
        HostValue::Buffer(bytes) => HostView::Buffer(bytes@),
        HostValue::Function => HostView::Function,
        HostValue::Other => HostView::Other,
    }
}

impl View for HostValue {
    type V = HostView;

    open spec fn view(&self) -> HostView {
        host_view(*self)
    }
}

/// The views of the items of an array.
pub open spec fn item_views(items: Seq<HostValue>) -> Seq<HostView> {
    Seq::new(items.len(), |i: int| items[i]@)
}

/// The views of the properties of an object.
pub open spec fn entry_views(entries: Seq<(HostValue, HostValue)>) -> Seq<(HostView, HostView)> {
    Seq::new(entries.len(), |i: int| (entries[i].0@, entries[i].1@))
}

/// An array's view is made of the views of its items.
pub proof fn lemma_array_view(items: Vec<HostValue>)
    ensures
        HostValue::Array(items)@ == HostView::Array(item_views(items@)),
{
    assert(HostValue::Array(items)@->Array_0 =~= item_views(items@));
}

/// An object's view is made of the views of its properties.
pub proof fn lemma_object_view(entries: Vec<(HostValue, HostValue)>)
    ensures
        HostValue::Object(entries)@ == HostView::Object(entry_views(entries@)),
{
    assert(HostValue::Object(entries)@->Object_0 =~= entry_views(entries@));
}

impl HostView {
    /// Which kind the value is.
    pub open spec fn tag(self) -> Tag {
        match self {
            HostView::Null => Tag::Null,
            HostView::Undefined => Tag::Undefined,
            HostView::Boolean(_) => Tag::Boolean,
            HostView::Integer(_) => Tag::Integer,
            HostView::Number(_) => Tag::Number,
            HostView::String(_) => Tag::String,
            HostView::Array(_) => Tag::Array,
            HostView::Object(_) => Tag::Object,
            HostView::Buffer(_) => Tag::Buffer,
            HostView::Function => Tag::Function,
            HostView::Other => Tag::Other,
        }
    }

    /// A short text for the value: what JavaScript prints for null, undefined,
    /// a boolean, a string and a whole number of at most 64 bits, and the kind
    /// in brackets for the rest.
    pub open spec fn text(self) -> Seq<char> {
        match self {
            HostView::Null => "null"@,
            HostView::Undefined => "undefined"@,
            HostView::Boolean(b) => if b {
                "true"@
            } else {
                "false"@
            },
            HostView::Integer(i) => signed_decimal(i as int),
            HostView::Number(d) => match d.narrow(i64::MIN as int, i64::MAX as int) {
                Ok(k) => signed_decimal(k),
                Err(_) => "[object Number]"@,
            },
            HostView::String(s) => s,
            HostView::Array(_) => "[object Array]"@,
            HostView::Object(_) => "[object Object]"@,
            HostView::Buffer(_) => "[object Buffer]"@,
            HostView::Function => "[object Function]"@,
            HostView::Other => "[object Other]"@,
        }
    }
}

/// The index of the first property at or after `from` whose key is `key`, or
/// the number of properties where there is none.
pub open spec fn first_index(entries: Seq<(HostView, HostView)>, key: HostView, from: int) -> int
    decreases entries.len() - from,
{
    if from < 0 || from >= entries.len() {
        entries.len() as int
    } else if entries[from].0 == key {
        from
    } else {
        first_index(entries, key, from + 1)
    }
}

/// What reading the property `key` gives: the value of the first property with
/// that key, and undefined without one.
pub open spec fn lookup(entries: Seq<(HostView, HostView)>, key: HostView) -> HostView {
    let i = first_index(entries, key, 0);
    if i < entries.len() {
        entries[i].1
    } else {
        HostView::Undefined
    }
}

/// What setting the property `key` to `value` leaves: the value replaced where
/// the key is there, a new last property where it is not.
pub open spec fn put(entries: Seq<(HostView, HostView)>, key: HostView, value: HostView) -> Seq<
    (HostView, HostView),
> {
    let i = first_index(entries, key, 0);
    if i < entries.len() {
        entries.update(i, (key, value))
    } else {
        entries.push((key, value))
    }
}

/// No two properties have the same key.
pub open spec fn distinct_keys(entries: Seq<(HostView, HostView)>) -> bool {
    forall|i: int, j: int|
        0 <= i < j < entries.len() ==> (#[trigger] entries[i]).0 != (#[trigger] entries[j]).0
}

/// The first index lies between the start and the end, names the key, and no
/// property before it does.
pub proof fn lemma_first_index(entries: Seq<(HostView, HostView)>, key: HostView, from: int)
    requires
        0 <= from <= entries.len(),
    ensures
        from <= first_index(entries, key, from) <= entries.len(),
        first_index(entries, key, from) < entries.len() ==> entries[first_index(
            entries,
            key,
            from,
        )].0 == key,
        forall|j: int| from <= j < first_index(entries, key, from) ==> entries[j].0 != key,
    decreases entries.len() - from,
{
    if from < entries.len() && entries[from].0 != key {
        lemma_first_index(entries, key, from + 1);
    }
}

fn bytes_equal(a: &Vec<u8>, b: &Vec<u8>) -> (r: bool)
    ensures
        r == (a@ == b@),
{
    if a.len() != b.len() {
        return false;
    }
    let mut i: usize = 0;
    while i < a.len()
        invariant
            i <= a.len() == b.len(),
            forall|j: int| 0 <= j < i ==> a@[j] == b@[j],
        decreases a.len() - i,
    {
        if a[i] != b[i] {
            return false;
        }
        i = i + 1;
    }
    assert(a@ =~= b@);
    true
}

/// A copy of the bytes.
pub fn copy_bytes(a: &[u8]) -> (r: Vec<u8>)
    ensures
        r@ == a@,
{
    let mut r: Vec<u8> = Vec::new();
    let mut i: usize = 0;
    while i < a.len()
        invariant
            i <= a.len(),
            r@ == a@.take(i as int),
        decreases a.len() - i,
    {
        r.push(a[i]);
        assert(r@ =~= a@.take(i + 1));
        i = i + 1;
    }
    assert(r@ =~= a@);
    r
}

impl HostValue {
    /// Which kind this is.
    pub fn tag(&self) -> (t: Tag)
        ensures
            t == self@.tag(),
    {
        match self {
            HostValue::Null => Tag::Null,
            HostValue::Undefined => Tag::Undefined,
            HostValue::Boolean(_) => Tag::Boolean,
            HostValue::Integer(_) => Tag::Integer,
            HostValue::Number(_) => Tag::Number,
            HostValue::String(_) => Tag::String,
            HostValue::Array(_) => Tag::Array,
            HostValue::Object(_) => Tag::Object,
            HostValue::Buffer(_) => Tag::Buffer,
            HostValue::Function => Tag::Function,
            HostValue::Other => Tag::Other,
        }
    }

    /// Whether the two values are the same, part by part.
    pub fn same(&self, other: &HostValue) -> (r: bool)
        ensures
            r == (self@ == other@),
        decreases self,
    {
        match self {
            HostValue::Null => match other {
                HostValue::Null => true,
                _ => false,
            },
            HostValue::Undefined => match other {
                HostValue::Undefined => true,
                _ => false,
            },
            HostValue::Function => match other {
                HostValue::Function => true,
                _ => false,
            },
            HostValue::Other => match other {
                HostValue::Other => true,
                _ => false,
            },
            HostValue::Boolean(a) => match other {
                HostValue::Boolean(b) => *a == *b,
                _ => false,
            },
            HostValue::Integer(a) => match other {
                HostValue::Integer(b) => *a == *b,
                _ => false,
            },
            HostValue::Number(a) => match other {
                HostValue::Number(b) => a.bits == b.bits,
                _ => false,
            },
            HostValue::String(a) => match other {
                HostValue::String(b) => *a == *b,
                _ => false,
            },
            HostValue::Buffer(a) => match other {
                HostValue::Buffer(b) => bytes_equal(a, b),
                _ => false,
            },
            HostValue::Array(a) => match other {
                HostValue::Array(b) => {
                    proof {
                        lemma_array_view(*a);
                        lemma_array_view(*b);
                    }
                    if a.len() != b.len() {
                        assert(item_views(a@).len() != item_views(b@).len());
                        return false;
                    }
                    let mut i: usize = 0;
                    while i < a.len()
                        invariant
                            i <= a.len() == b.len(),
                            self is Array,
                            self->Array_0 == *a,
                            self@ == HostView::Array(item_views(a@)),
                            other@ == HostView::Array(item_views(b@)),
                            forall|j: int| 0 <= j < i ==> a@[j]@ == b@[j]@,
                        decreases a.len() - i,
                    {
                        if !a[i].same(&b[i]) {
                            assert(item_views(a@)[i as int] != item_views(b@)[i as int]);
                            return false;
                        }
                        i = i + 1;
                    }
                    assert(item_views(a@) =~= item_views(b@));
                    true
                },
                _ => false,
            },
            HostValue::Object(a) => match other {
                HostValue::Object(b) => {
                    proof {
                        lemma_object_view(*a);
                        lemma_object_view(*b);
                    }
                    if a.len() != b.len() {
                        assert(entry_views(a@).len() != entry_views(b@).len());
                        return false;
                    }
                    let mut i: usize = 0;
                    while i < a.len()
                        invariant
                            i <= a.len() == b.len(),
                            self is Object,
                            self->Object_0 == *a,
                            self@ == HostView::Object(entry_views(a@)),
                            other@ == HostView::Object(entry_views(b@)),
                            forall|j: int|
                                0 <= j < i ==> a@[j].0@ == b@[j].0@ && a@[j].1@ == b@[j].1@,
                        decreases a.len() - i,
                    {
                        if !a[i].0.same(&b[i].0) || !a[i].1.same(&b[i].1) {
                            assert(entry_views(a@)[i as int] != entry_views(b@)[i as int]);
                            return false;
                        }
                        i = i + 1;
                    }
                    assert(entry_views(a@) =~= entry_views(b@));
                    true
                },
                _ => false,
            },
        }
    }

    /// A copy of the value, children and all.
    pub fn duplicate(&self) -> (r: HostValue)
        ensures
            r@ == self@,
        decreases self,
    {
        match self {
            HostValue::Null => HostValue::Null,
            HostValue::Undefined => HostValue::Undefined,
            HostValue::Boolean(b) => HostValue::Boolean(*b),
            HostValue::Integer(i) => HostValue::Integer(*i),
            HostValue::Number(d) => HostValue::Number(*d),
            HostValue::String(s) => HostValue::String(s.clone()),
            HostValue::Buffer(bytes) => HostValue::Buffer(copy_bytes(bytes.as_slice())),
            HostValue::Function => HostValue::Function,
            HostValue::Other => HostValue::Other,
            HostValue::Array(items) => {
                let mut copy: Vec<HostValue> = Vec::new();
                let mut i: usize = 0;
                while i < items.len()
                    invariant
                        i <= items.len(),
                        self is Array,
                        self->Array_0 == *items,
                        copy@.len() == i,
                        forall|j: int| 0 <= j < i ==> copy@[j]@ == items@[j]@,
                    decreases items.len() - i,
                {
                    copy.push(items[i].duplicate());
                    i = i + 1;
                }
                proof {
                    lemma_array_view(*items);
                    lemma_array_view(copy);
                    assert(item_views(copy@) =~= item_views(items@));
                }
                HostValue::Array(copy)
            },
            HostValue::Object(entries) => {
                let mut copy: Vec<(HostValue, HostValue)> = Vec::new();
                let mut i: usize = 0;
                while i < entries.len()
                    invariant
                        i <= entries.len(),
                        self is Object,
                        self->Object_0 == *entries,
                        copy@.len() == i,
                        forall|j: int|
                            0 <= j < i ==> copy@[j].0@ == entries@[j].0@ && copy@[j].1@
                                == entries@[j].1@,
                    decreases entries.len() - i,
                {
                    copy.push((entries[i].0.duplicate(), entries[i].1.duplicate()));
                    i = i + 1;
                }
                proof {
                    lemma_object_view(*entries);
                    lemma_object_view(copy);
                    assert(entry_views(copy@) =~= entry_views(entries@));
                }
                HostValue::Object(copy)
            },
        }
    }

    /// A short text for the value, for messages.
    pub fn to_text(&self) -> (s: String)
        ensures
            s@ == self@.text(),
    {
        match self {
            HostValue::Null => String::from_str("null"),
            HostValue::Undefined => String::from_str("undefined"),
            HostValue::Boolean(b) => if *b {
                String::from_str("true")
            } else {
                String::from_str("false")
            },
            HostValue::Integer(i) => signed_decimal_string(*i),
            HostValue::Number(d) => match d.to_i64() {
                Ok(k) => signed_decimal_string(k),
                Err(_) => String::from_str("[object Number]"),
            },
            HostValue::String(s) => s.clone(),
            HostValue::Array(_) => String::from_str("[object Array]"),
            HostValue::Object(_) => String::from_str("[object Object]"),
            HostValue::Buffer(_) => String::from_str("[object Buffer]"),
            HostValue::Function => String::from_str("[object Function]"),
            HostValue::Other => String::from_str("[object Other]"),
        }
    }
}

/// The index of the first property whose key is `key`, if there is one.
pub fn find_property(entries: &Vec<(HostValue, HostValue)>, key: &HostValue) -> (r: Option<usize>)
    ensures
        match r {
            Some(i) => i < entries@.len() && i == first_index(entry_views(entries@), key@, 0),
            None => first_index(entry_views(entries@), key@, 0) == entries@.len(),
        },
{
    let ghost views = entry_views(entries@);
    let mut i: usize = 0;
    while i < entries.len()
        invariant
            i <= entries.len(),
            views == entry_views(entries@),
            first_index(views, key@, 0) == first_index(views, key@, i as int),
        decreases entries.len() - i,
    {
        if entries[i].0.same(key) {
            return Some(i);
        }
        i = i + 1;
    }
    None
}

/// Reads the property `key`: the value, or nothing where the host would give
/// undefined.
pub fn get_property<'a>(entries: &'a Vec<(HostValue, HostValue)>, key: &HostValue) -> (r: Option<
    &'a HostValue,
>)
    ensures
        match r {
            Some(v) => v@ == lookup(entry_views(entries@), key@) && first_index(
                entry_views(entries@),
                key@,
                0,
            ) < entries@.len(),
            None => lookup(entry_views(entries@), key@) == HostView::Undefined && first_index(
                entry_views(entries@),
                key@,
                0,
            ) == entries@.len(),
        },
{
    match find_property(entries, key) {
        Some(i) => Some(&entries[i].1),
        None => None,
    }
}

/// Sets the property `key` to `value`.
pub fn set_property(entries: &mut Vec<(HostValue, HostValue)>, key: HostValue, value: HostValue)
    ensures
        entry_views(final(entries)@) == put(entry_views(old(entries)@), key@, value@),
{
    let ghost before = entry_views(entries@);
    match find_property(entries, &key) {
        Some(i) => {
            entries.set(i, (key, value));
            assert(entry_views(entries@) =~= before.update(i as int, (key@, value@)));
        },
        None => {
            entries.push((key, value));
            assert(entry_views(entries@) =~= before.push((key@, value@)));
        },
    }
}

} // verus!
