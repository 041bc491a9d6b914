//! Enumerations of a data dictionary, and the fields that refer to them.

use crate::host_io::format::FieldType;
use crate::ordered_map::OrderedMap;
use crate::text::{
    copy_text, decimal_int, ends_with, ends_with_underscored, push_decimal_int, root_and_number,
    root_len, same_text, suffix_number,
};
use std::collections::HashMap;
use vstd::prelude::*;

verus! {

broadcast use vstd::std_specs::hash::group_hash_axioms;

/// One enumerator: a single number, or a range of numbers under numbered
/// names.
#[derive(Debug, Clone, Copy, PartialEq, Eq, Structural)]
pub enum EnumValue {
    Single(i32),
    Range { start: i32, count: i32 },
}

/// Why a dictionary value is no enumerator.
#[derive(Debug, Clone, Copy, PartialEq, Eq, Structural)]
pub enum EnumValueError {
    StartNotInt,
    CountNotInt,
    NeitherIntNorPair,
}

/// An `i64` cut to its low 32 bits, as a signed number.
pub open spec fn low_i32(v: int) -> int {
    (v + 0x8000_0000) % 0x1_0000_0000 - 0x8000_0000
}

/// An `i64` cut to its low 32 bits, as an unsigned number.
pub open spec fn low_u32(v: int) -> int {
    v % 0x1_0000_0000
}

/// Cuts a number to its low 32 bits, as a signed number.
pub fn to_i32(v: i64) -> (r: i32)
    ensures
        r == low_i32(v as int),
{
    let wide: i128 = v as i128 + 0x8000_0000_0000_0000;
    let low: u128 = (wide as u128 + 0x8000_0000) % 0x1_0000_0000;
    (low as i64 - 0x8000_0000) as i32
}

/// Cuts a number to its low 32 bits, as an unsigned number.
pub fn to_u32(v: i64) -> (r: u32)
    ensures
        r == low_u32(v as int),
{
    let wide: i128 = v as i128 + 0x8000_0000_0000_0000;
    ((wide as u128) % 0x1_0000_0000) as u32
}

impl EnumValue {
    /// The enumerator that a dictionary value gives: an integer is a single
    /// one, a pair of integers a range. `single` holds the value where it is an
    /// integer, `items` its elements where it is an array, each with its value
    /// where it is an integer.
    pub fn from_json_parts(single: Option<i64>, items: Option<Vec<Option<i64>>>) -> (r: Result<
        EnumValue,
        EnumValueError,
    >)
        ensures
            r == match single {
                Some(i) => Ok(EnumValue::Single(low_i32(i as int) as i32)),
                None => match items {
                    Some(v) => if v@.len() == 2 {
                        match (v@[0], v@[1]) {
                            (None, _) => Err(EnumValueError::StartNotInt),
                            (_, None) => Err(EnumValueError::CountNotInt),
                            (Some(s), Some(c)) => Ok(
                                EnumValue::Range {
                                    start: low_i32(s as int) as i32,
                                    count: low_i32(c as int) as i32,
                                },
                            ),
                        }
                    } else {
                        Err(EnumValueError::NeitherIntNorPair)
                    },
                    None => Err(EnumValueError::NeitherIntNorPair),
                },
            },
    {
        match single {
            Some(i) => Ok(EnumValue::Single(to_i32(i))),
            None => match items {
                Some(v) => {
                    if v.len() != 2 {
                        return Err(EnumValueError::NeitherIntNorPair);
                    }
                    match v[0] {
                        None => Err(EnumValueError::StartNotInt),
                        Some(s) => match v[1] {
                            None => Err(EnumValueError::CountNotInt),
                            Some(c) => Ok(
                                EnumValue::Range { start: to_i32(s), count: to_i32(c) },
                            ),
                        },
                    }
                },
                None => Err(EnumValueError::NeitherIntNorPair),
            },
        }
    }
}

/// The names and numbers of one enumeration.
#[derive(Debug)]
pub struct EnumTable {
    pub by_name: OrderedMap<i32>,
    pub by_int: HashMap<i32, String>,
}

/// Model of [`EnumTable`].
#[verifier::ext_equal]
pub struct EnumTableView {
    pub by_name: Map<Seq<char>, i32>,
    pub by_int: Map<i32, Seq<char>>,
}

impl View for EnumTable {
    type V = EnumTableView;

    open spec fn view(&self) -> EnumTableView {
        EnumTableView {
            by_name: self.by_name@,
            by_int: self.by_int@.map_values(|s: String| s@),
        }
    }
}

/// A table with one more name for a number.
pub open spec fn with_name(t: EnumTableView, name: Seq<char>, n: int) -> EnumTableView {
    EnumTableView {
        by_name: t.by_name.insert(name, n as i32),
        by_int: t.by_int.insert(n as i32, name),
    }
}

/// A table with the first `n` numbered names of a range.
pub open spec fn with_range(
    t: EnumTableView,
    root: Seq<char>,
    number: int,
    start: int,
    n: int,
) -> EnumTableView
    decreases n,
{
    if n <= 0 {
        t
    } else {
        with_name(
            with_range(t, root, number, start, n - 1),
            root + decimal_int(number + n - 1),
            start + n - 1,
        )
    }
}

/// A table with one more enumerator.
pub open spec fn with_value(t: EnumTableView, name: Seq<char>, v: EnumValue) -> EnumTableView {
    match v {
        EnumValue::Single(i) => with_name(t, name, i as int),
        EnumValue::Range { start, count } => with_range(
            t,
            name.take(root_len(name) as int),
            suffix_number(name),
            start as int,
            count as int,
        ),
    }
}

/// The table of some enumerators: later ones replace earlier ones.
pub open spec fn table_of(names: Seq<Seq<char>>, values: Seq<EnumValue>) -> EnumTableView
    decreases names.len(),
{
    if names.len() == 0 {
        EnumTableView { by_name: Map::empty(), by_int: Map::empty() }
    } else {
        with_value(table_of(names.drop_last(), values.drop_last()), names.last(), values.last())
    }
}

/// Whether the numbers of an enumerator stay within `i32`.
pub open spec fn value_fits(name: Seq<char>, v: EnumValue) -> bool {
    match v {
        EnumValue::Single(_) => true,
        EnumValue::Range { start, count } => count <= 0 || (suffix_number(name) + count - 1
            <= i32::MAX && start + count - 1 <= i32::MAX),
    }
}

/// Whether the numbers of all enumerators stay within `i32`.
pub open spec fn values_fit(d: &OrderedMap<EnumValue>) -> bool {
    forall|i: int|
        0 <= i < d.order().len() ==> value_fits(#[trigger] d.order()[i], d.values()[i])
}

/// Whether all numbers of an enumeration stay within `i32`.
pub fn check_values(d: &OrderedMap<EnumValue>) -> (r: bool)
    ensures
        r == values_fit(d),
{
    let n: usize = d.len();
    let mut i: usize = 0;
    while i < n
        invariant
            n == d.order().len(),
            n == d.values().len(),
            i <= n,
            forall|j: int| 0 <= j < i ==> value_fits(#[trigger] d.order()[j], d.values()[j]),
        decreases n - i,
    {
        let e = d.entry(i);
        match e.1 {
            EnumValue::Single(_) => {},
            EnumValue::Range { start, count } => {
                if *count > 0 {
                    let p = root_and_number(e.0.as_str());
                    if p.1 as i64 + *count as i64 - 1 > 0x7fff_ffff || *start as i64 + *count as i64
                        - 1 > 0x7fff_ffff {
                        proof {
                            assert(!value_fits(d.order()[i as int], d.values()[i as int]));
                        }
                        return false;
                    }
                }
            },
        }
        i += 1;
    }
    true
}

impl EnumTable {
    /// An empty table.
    pub fn new_empty() -> (t: Self)
        ensures
            t@ == table_of(Seq::empty(), Seq::empty()),
    {
        let t = EnumTable { by_name: OrderedMap::new(), by_int: HashMap::new() };
        proof {
            assert(t@.by_int =~= Map::<i32, Seq<char>>::empty());
        }
        t
    }

    /// Adds one name for a number.
    fn add_name(&mut self, name: String, n: i32)
        ensures
            final(self)@ == with_name(old(self)@, name@, n as int),
    {
        let ghost before = self.by_int@;
        let copy: String = copy_text(name.as_str());
        self.by_int.insert(n, copy);
        self.by_name.insert(name, n);
        proof {
            assert(self.by_int@ == before.insert(n, copy));
            assert(self@.by_int =~= old(self)@.by_int.insert(n, name@));
        }
    }

    /// The table of a dictionary's enumeration. A range is expanded into
    /// names numbered on from the number at the end of its own name.
    pub fn from_dict(d: &OrderedMap<EnumValue>) -> (t: Self)
        requires
            values_fit(d),
        ensures
            t@ == table_of(d.order(), d.values()),
    {
        let n: usize = d.len();
        let mut t = EnumTable::new_empty();
        let mut i: usize = 0;
        proof {
            assert(d.order().take(0) =~= Seq::<Seq<char>>::empty());
            assert(d.values().take(0) =~= Seq::<EnumValue>::empty());
        }
        while i < n
            invariant
                n == d.order().len(),
                n == d.values().len(),
                i <= n,
                values_fit(d),
                t@ == table_of(d.order().take(i as int), d.values().take(i as int)),
            decreases n - i,
        {
            let e = d.entry(i);
            let ghost name = e.0@;
            proof {
                assert(d.order().take(i + 1).drop_last() =~= d.order().take(i as int));
                assert(d.values().take(i + 1).drop_last() =~= d.values().take(i as int));
                assert(value_fits(d.order()[i as int], d.values()[i as int]));
            }
            match e.1 {
                EnumValue::Single(v) => {
                    t.add_name(e.0.clone(), *v);
                },
                EnumValue::Range { start, count } => {
                    let p = root_and_number(e.0.as_str());
                    let ghost before = t@;
                    let mut k: i32 = 0;
                    while k < *count
                        invariant
                            0 <= k,
                            *count > 0 ==> k <= *count,
                            *count <= 0 ==> k == 0,
                            value_fits(name, EnumValue::Range { start: *start, count: *count }),
                            p.0@ == name.take(root_len(name) as int),
                            p.1 == suffix_number(name),
                            p.1 >= 0,
                            t@ == with_range(before, p.0@, p.1 as int, *start as int, k as int),
                        decreases *count - k,
                    {
                        let mut key: String = p.0.clone();
                        push_decimal_int(&mut key, (p.1 + k) as i64);
                        t.add_name(key, *start + k);
                        k += 1;
                    }
                },
            }
            i += 1;
        }
        proof {
            assert(d.order().take(n as int) =~= d.order());
            assert(d.values().take(n as int) =~= d.values());
        }
        t
    }
}

/// The type of a field, with the enumeration that it refers to.
#[derive(Debug)]
pub enum WrappedField {
    Plain(FieldType),
    Enumerated { inner: FieldType, enum_name: String },
}

/// Model of [`WrappedField`].
pub enum WrappedView {
    Plain(FieldType),
    Enumerated { inner: FieldType, enum_name: Seq<char> },
}

impl View for WrappedField {
    type V = WrappedView;

    open spec fn view(&self) -> WrappedView {
        match self {
            WrappedField::Plain(t) => WrappedView::Plain(*t),
            WrappedField::Enumerated { inner, enum_name } => WrappedView::Enumerated {
                inner: *inner,
                enum_name: enum_name@,
            },
        }
    }
}

impl WrappedField {
    /// A field type of the same content.
    pub fn copied(&self) -> (r: Self)
        ensures
            r@ == self@,
    {
        match self {
            WrappedField::Plain(t) => WrappedField::Plain(*t),
            WrappedField::Enumerated { inner, enum_name } => WrappedField::Enumerated {
                inner: *inner,
                enum_name: enum_name.clone(),
            },
        }
    }
}

/// Whether a field name refers to an enumeration: by its whole name, or by the
/// part behind an underscore.
pub open spec fn refers_to(field: Seq<char>, enum_name: Seq<char>) -> bool {
    field == enum_name || ends_with(field, seq!['_'] + enum_name)
}

/// The first enumeration, in insertion order, that a field name refers to.
pub open spec fn first_enum(field: Seq<char>, names: Seq<Seq<char>>) -> Option<Seq<char>>
    decreases names.len(),
{
    if names.len() == 0 {
        None
    } else {
        match first_enum(field, names.drop_last()) {
            Some(n) => Some(n),
            None => if refers_to(field, names.last()) {
                Some(names.last())
            } else {
                None
            },
        }
    }
}

/// A match among the first names is the match among them all.
proof fn lemma_first_enum(field: Seq<char>, names: Seq<Seq<char>>, n: int)
    requires
        0 <= n <= names.len(),
        first_enum(field, names.take(n)) is Some,
    ensures
        first_enum(field, names) == first_enum(field, names.take(n)),
    decreases names.len(),
{
    if n == names.len() {
        assert(names.take(n) =~= names);
    } else {
        assert(names.drop_last().take(n) =~= names.take(n));
        lemma_first_enum(field, names.drop_last(), n);
    }
}

/// A field with the enumeration it refers to.
pub open spec fn wrapped(field: Seq<char>, ty: FieldType, names: Seq<Seq<char>>) -> WrappedView {
    match first_enum(field, names) {
        Some(n) => WrappedView::Enumerated { inner: ty, enum_name: n },
        None => WrappedView::Plain(ty),
    }
}

/// Named fields with the enumerations they refer to.
pub open spec fn wrapped_fields(
    fields: Seq<(Seq<char>, FieldType)>,
    names: Seq<Seq<char>>,
) -> Seq<(Seq<char>, WrappedView)> {
    Seq::new(fields.len(), |i: int| (fields[i].0, wrapped(fields[i].0, fields[i].1, names)))
}

/// Named wrapped fields, as texts.
pub open spec fn named_wrapped(v: Seq<(String, WrappedField)>) -> Seq<(Seq<char>, WrappedView)> {
    Seq::new(v.len(), |i: int| (v[i].0@, v[i].1@))
}

/// Finds the enumeration that a field refers to.
fn wrap_field(
    field: &str,
    ty: FieldType,
    enums: &OrderedMap<OrderedMap<EnumValue>>,
) -> (r: WrappedField)
    ensures
        r@ == wrapped(field@, ty, enums.order()),
{
    let n: usize = enums.len();
    let ghost names = enums.order();
    let mut i: usize = 0;
    proof {
        assert(names.take(0) =~= Seq::<Seq<char>>::empty());
    }
    while i < n
        invariant
            n == names.len(),
            names == enums.order(),
            i <= n,
            first_enum(field@, names.take(i as int)) is None,
        decreases n - i,
    {
        let e = enums.entry(i);
        proof {
            assert(names.take(i + 1).drop_last() =~= names.take(i as int));
            assert(names.take(i + 1).last() == e.0@);
        }
        if same_text(field, e.0.as_str()) || ends_with_underscored(field, e.0.as_str()) {
            proof {
                lemma_first_enum(field@, names, i + 1);
            }
            return WrappedField::Enumerated { inner: ty, enum_name: e.0.clone() };
        }
        i += 1;
    }
    proof {
        assert(names.take(n as int) =~= names);
    }
    WrappedField::Plain(ty)
}

/// Gives each field the first enumeration, in insertion order, that its name
/// refers to.
pub fn apply_enumeration_wrapping(
    fields: Vec<(String, FieldType)>,
    enums: &OrderedMap<OrderedMap<EnumValue>>,
) -> (r: Vec<(String, WrappedField)>)
    ensures
        named_wrapped(r@) == wrapped_fields(
            crate::host_io::format::named_types(fields@),
            enums.order(),
        ),
{
    let ghost names = enums.order();
    let mut out: Vec<(String, WrappedField)> = Vec::new();
    let mut i: usize = 0;
    while i < fields.len()
        invariant
            i <= fields.len(),
            i == out.len(),
            names == enums.order(),
            forall|j: int|
                0 <= j < i ==> (#[trigger] out@[j]).0@ == fields@[j].0@ && out@[j].1@ == wrapped(
                    fields@[j].0@,
                    fields@[j].1,
                    names,
                ),
        decreases fields.len() - i,
    {
        let w: WrappedField = wrap_field(fields[i].0.as_str(), fields[i].1, enums);
        out.push((fields[i].0.clone(), w));
        i += 1;
    }
    proof {
        assert(named_wrapped(out@) =~= wrapped_fields(
            crate::host_io::format::named_types(fields@),
            enums.order(),
        ));
    }
    out
}

} // verus!
