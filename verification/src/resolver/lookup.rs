//! Name lookups used by the resolver: qualified names, aliases, primitive
//! types, and schema elements by kind and name.

use vstd::prelude::*;

use crate::csdl;
use crate::edm::PrimitiveType;
use crate::text::{owned, split_once, split_once_char, str_eq, strip_prefix, strip_prefix_str};

verus! {

/// Kinds of schema elements, as numbers.
pub open spec fn kind_entity() -> u8 { 0 }
pub open spec fn kind_complex() -> u8 { 1 }
pub open spec fn kind_enum() -> u8 { 2 }
pub open spec fn kind_type_definition() -> u8 { 3 }
pub open spec fn kind_term() -> u8 { 4 }
pub open spec fn kind_function() -> u8 { 5 }
pub open spec fn kind_action() -> u8 { 6 }
pub open spec fn kind_container() -> u8 { 7 }

pub open spec fn spec_kind(e: csdl::SchemaElement) -> u8 {
    match e {
        csdl::SchemaElement::EntityType(_) => 0,
        csdl::SchemaElement::ComplexType(_) => 1,
        csdl::SchemaElement::EnumType(_) => 2,
        csdl::SchemaElement::TypeDefinition(_) => 3,
        csdl::SchemaElement::Term(_) => 4,
        csdl::SchemaElement::Function(_) => 5,
        csdl::SchemaElement::Action(_) => 6,
        csdl::SchemaElement::EntityContainer(_) => 7,
    }
}

pub open spec fn spec_name(e: csdl::SchemaElement) -> Seq<char> {
    match e {
        csdl::SchemaElement::EntityType(x) => x.name@,
        csdl::SchemaElement::ComplexType(x) => x.name@,
        csdl::SchemaElement::EnumType(x) => x.name@,
        csdl::SchemaElement::TypeDefinition(x) => x.name@,
        csdl::SchemaElement::Term(x) => x.name@,
        csdl::SchemaElement::Function(x) => x.name@,
        csdl::SchemaElement::Action(x) => x.name@,
        csdl::SchemaElement::EntityContainer(x) => x.name@,
    }
}

pub fn element_kind(e: &csdl::SchemaElement) -> (k: u8)
    ensures
        k == spec_kind(*e),
{
    match e {
        csdl::SchemaElement::EntityType(_) => 0,
        csdl::SchemaElement::ComplexType(_) => 1,
        csdl::SchemaElement::EnumType(_) => 2,
        csdl::SchemaElement::TypeDefinition(_) => 3,
        csdl::SchemaElement::Term(_) => 4,
        csdl::SchemaElement::Function(_) => 5,
        csdl::SchemaElement::Action(_) => 6,
        csdl::SchemaElement::EntityContainer(_) => 7,
    }
}

pub fn element_name(e: &csdl::SchemaElement) -> (n: &String)
    ensures
        n@ == spec_name(*e),
{
    match e {
        csdl::SchemaElement::EntityType(x) => &x.name,
        csdl::SchemaElement::ComplexType(x) => &x.name,
        csdl::SchemaElement::EnumType(x) => &x.name,
        csdl::SchemaElement::TypeDefinition(x) => &x.name,
        csdl::SchemaElement::Term(x) => &x.name,
        csdl::SchemaElement::Function(x) => &x.name,
        csdl::SchemaElement::Action(x) => &x.name,
        csdl::SchemaElement::EntityContainer(x) => &x.name,
    }
}

/// Index of the last element of kind `k` named `n`: the definition a map keyed
/// by name ends up holding when it is filled in document order.
pub open spec fn last_index(s: Seq<csdl::SchemaElement>, k: u8, n: Seq<char>) -> Option<int>
    decreases s.len(),
{
    if s.len() == 0 {
        None
    } else if spec_kind(s.last()) == k && spec_name(s.last()) == n {
        Some(s.len() - 1)
    } else {
        last_index(s.drop_last(), k, n)
    }
}

/// The elements of kind `k`, in document order: the arena of that kind.
pub open spec fn of_kind(s: Seq<csdl::SchemaElement>, k: u8) -> Seq<csdl::SchemaElement>
    decreases s.len(),
{
    if s.len() == 0 {
        Seq::<csdl::SchemaElement>::empty()
    } else if spec_kind(s.last()) == k {
        of_kind(s.drop_last(), k).push(s.last())
    } else {
        of_kind(s.drop_last(), k)
    }
}

/// Number of elements of kind `k` before position `i`: the arena index an
/// element of that kind gets in the model.
pub open spec fn ordinal(s: Seq<csdl::SchemaElement>, k: u8, i: int) -> nat {
    of_kind(s.take(i), k).len()
}

/// Arena index of the element of kind `k` named `n`.
pub open spec fn arena_id(s: Seq<csdl::SchemaElement>, k: u8, n: Seq<char>) -> Option<nat> {
    match last_index(s, k, n) {
        Some(i) => Some(ordinal(s, k, i)),
        None => None,
    }
}

pub proof fn lemma_last_index_bounds(s: Seq<csdl::SchemaElement>, k: u8, n: Seq<char>)
    ensures
        last_index(s, k, n) matches Some(i) ==> 0 <= i < s.len() && spec_kind(s[i]) == k
            && spec_name(s[i]) == n,
    decreases s.len(),
{
    if s.len() > 0 {
        lemma_last_index_bounds(s.drop_last(), k, n);
    }
}

/// The element at `i`, when of kind `k`, is the `ordinal(s, k, i)`-th
/// element of its arena.
pub proof fn lemma_ordinal_of_kind(s: Seq<csdl::SchemaElement>, k: u8, i: int)
    requires
        0 <= i < s.len(),
        spec_kind(s[i]) == k,
    ensures
        ordinal(s, k, i) < of_kind(s, k).len(),
        of_kind(s, k)[ordinal(s, k, i) as int] == s[i],
    decreases s.len(),
{
    if i == s.len() - 1 {
        assert(s.take(i) =~= s.drop_last());
    } else {
        lemma_ordinal_of_kind(s.drop_last(), k, i);
        assert(s.drop_last().take(i) =~= s.take(i));
    }
}

pub proof fn lemma_of_kind_prefix(s: Seq<csdl::SchemaElement>, k: u8, i: int)
    requires
        0 <= i <= s.len(),
    ensures
        of_kind(s.take(i), k).len() <= of_kind(s, k).len(),
        forall|j: int| 0 <= j < of_kind(s.take(i), k).len() ==> #[trigger] of_kind(s.take(i), k)[j] == of_kind(s, k)[j],
    decreases s.len() - i,
{
    if i < s.len() {
        lemma_of_kind_prefix(s, k, i + 1);
        assert(s.take(i + 1).drop_last() =~= s.take(i));
        let a = of_kind(s.take(i), k);
        let b = of_kind(s.take(i + 1), k);
        assert forall|j: int| 0 <= j < a.len() implies #[trigger] a[j] == of_kind(s, k)[j] by {
            assert(a[j] == b[j]);
        }
    } else {
        assert(s.take(i) =~= s);
    }
}

pub proof fn lemma_of_kind_kinds(s: Seq<csdl::SchemaElement>, k: u8)
    ensures
        forall|j: int| 0 <= j < of_kind(s, k).len() ==> spec_kind(#[trigger] of_kind(s, k)[j]) == k,
        of_kind(s, k).len() <= s.len(),
    decreases s.len(),
{
    if s.len() > 0 {
        lemma_of_kind_kinds(s.drop_last(), k);
    }
}

/// Index of the last element of kind `k` named `name`.
pub fn find_last(elems: &Vec<csdl::SchemaElement>, k: u8, name: &str) -> (r: Option<usize>)
    ensures
        match r {
            Some(i) => last_index(elems@, k, name@) == Some(i as int),
            None => last_index(elems@, k, name@) is None,
        },
{
    let mut i: usize = elems.len();
    assert(elems@.take(i as int) =~= elems@);
    while i > 0
        invariant
            i <= elems@.len(),
            last_index(elems@, k, name@) == last_index(elems@.take(i as int), k, name@),
        decreases i,
    {
        let e = &elems[i - 1];
        proof {
            assert(elems@.take(i as int).drop_last() =~= elems@.take(i - 1));
            assert(elems@.take(i as int).last() == elems@[i - 1]);
        }
        if element_kind(e) == k && str_eq(element_name(e).as_str(), name) {
            return Some(i - 1);
        }
        i = i - 1;
    }
    None
}

/// Number of elements of kind `k` before position `i`.
pub fn ordinal_of(elems: &Vec<csdl::SchemaElement>, k: u8, i: usize) -> (r: usize)
    requires
        i <= elems@.len(),
    ensures
        r == ordinal(elems@, k, i as int),
{
    let mut c: usize = 0;
    let mut j: usize = 0;
    while j < i
        invariant
            j <= i <= elems@.len(),
            c == ordinal(elems@, k, j as int),
            c <= j,
        decreases i - j,
    {
        proof {
            assert(elems@.take(j + 1).drop_last() =~= elems@.take(j as int));
            assert(elems@.take(j + 1).last() == elems@[j as int]);
        }
        if element_kind(&elems[j]) == k {
            c = c + 1;
        }
        j = j + 1;
    }
    c
}

/// Arena index of the element of kind `k` named `name`.
pub fn find_id(elems: &Vec<csdl::SchemaElement>, k: u8, name: &str) -> (r: Option<usize>)
    ensures
        match r {
            Some(id) => arena_id(elems@, k, name@) == Some(id as nat),
            None => arena_id(elems@, k, name@) is None,
        },
{
    match find_last(elems, k, name) {
        Some(i) => {
            proof {
                lemma_last_index_bounds(elems@, k, name@);
            }
            Some(ordinal_of(elems, k, i))
        },
        None => None,
    }
}

/// Index of the element that is the `id`-th of kind `k`.
pub fn nth_of_kind(elems: &Vec<csdl::SchemaElement>, k: u8, id: usize) -> (r: Option<usize>)
    ensures
        match r {
            Some(i) => i < elems@.len() && id < of_kind(elems@, k).len() && of_kind(elems@, k)[id as int]
                == elems@[i as int],
            None => id >= of_kind(elems@, k).len(),
        },
{
    let mut c: usize = 0;
    let mut j: usize = 0;
    while j < elems.len()
        invariant
            j <= elems@.len(),
            c == ordinal(elems@, k, j as int),
            c <= id,
        decreases elems.len() - j,
    {
        proof {
            assert(elems@.take(j + 1).drop_last() =~= elems@.take(j as int));
            assert(elems@.take(j + 1).last() == elems@[j as int]);
        }
        if element_kind(&elems[j]) == k {
            if c == id {
                proof {
                    lemma_ordinal_of_kind(elems@, k, j as int);
                }
                return Some(j);
            }
            c = c + 1;
        }
        j = j + 1;
    }
    proof {
        assert(elems@.take(elems@.len() as int) =~= elems@);
    }
    None
}

// ---------------------------------------------------------------------------
// Aliases and qualified names
// ---------------------------------------------------------------------------

/// The namespace an alias stands for: the last entry for it, as a map filled
/// in order holds.
/// The aliases as character sequences.
pub open spec fn aliases_view(a: Seq<(String, String)>) -> Seq<(Seq<char>, Seq<char>)> {
    a.map_values(|p: (String, String)| (p.0@, p.1@))
}

pub open spec fn alias_get(aliases: Seq<(Seq<char>, Seq<char>)>, k: Seq<char>) -> Option<Seq<char>>
    decreases aliases.len(),
{
    if aliases.len() == 0 {
        None
    } else if aliases.last().0 == k {
        Some(aliases.last().1)
    } else {
        alias_get(aliases.drop_last(), k)
    }
}

pub fn alias_lookup(aliases: &Vec<(String, String)>, k: &str) -> (r: Option<String>)
    ensures
        match r {
            Some(v) => alias_get(aliases_view(aliases@), k@) == Some(v@),
            None => alias_get(aliases_view(aliases@), k@) is None,
        },
{
    let mut i: usize = aliases.len();
    assert(aliases@.take(i as int) =~= aliases@);
    assert(aliases_view(aliases@.take(i as int)) =~= aliases_view(aliases@));
    while i > 0
        invariant
            i <= aliases@.len(),
            alias_get(aliases_view(aliases@), k@) == alias_get(aliases_view(aliases@.take(i as int)), k@),
        decreases i,
    {
        proof {
            assert(aliases@.take(i as int).drop_last() =~= aliases@.take(i - 1));
            assert(aliases@.take(i as int).last() == aliases@[i - 1]);
            assert(aliases_view(aliases@.take(i as int)).drop_last() =~= aliases_view(aliases@.take(i - 1)));
            assert(aliases_view(aliases@.take(i as int)).last() == (aliases@[i - 1].0@, aliases@[i - 1].1@));
        }
        if str_eq(aliases[i - 1].0.as_str(), k) {
            return Some(owned(aliases[i - 1].1.as_str()));
        }
        i = i - 1;
    }
    None
}

/// The local name that a possibly qualified `name` gives in namespace
/// `namespace`: a bare name is itself; `Q.rest` is `rest` when `Q` is the
/// namespace or an alias of it; anything else is foreign (`None`).
pub open spec fn spec_unqualify(
    name: Seq<char>,
    namespace: Seq<char>,
    aliases: Seq<(Seq<char>, Seq<char>)>,
) -> Option<Seq<char>> {
    match split_once(name, '.') {
        Some((q, short)) => if q == namespace || alias_get(aliases, q) == Some(namespace) {
            Some(short)
        } else {
            None
        },
        None => Some(name),
    }
}

pub fn unqualify_to_local(name: &str, namespace: &str, aliases: &Vec<(String, String)>) -> (r:
    Option<String>)
    ensures
        match r {
            Some(v) => spec_unqualify(name@, namespace@, aliases_view(aliases@)) == Some(v@),
            None => spec_unqualify(name@, namespace@, aliases_view(aliases@)) is None,
        },
{
    match split_once_char(name, '.') {
        Some((q, short)) => {
            if str_eq(q.as_str(), namespace) {
                return Some(short);
            }
            match alias_lookup(aliases, q.as_str()) {
                Some(target) => {
                    if str_eq(target.as_str(), namespace) {
                        Some(short)
                    } else {
                        None
                    }
                },
                None => None,
            }
        },
        None => Some(owned(name)),
    }
}

// ---------------------------------------------------------------------------
// Primitive types
// ---------------------------------------------------------------------------

pub open spec fn primitive_named(r: Seq<char>) -> Option<PrimitiveType> {
    if r == "Binary"@ {
        Some(PrimitiveType::Binary)
    } else if r == "Boolean"@ {
        Some(PrimitiveType::Boolean)
    } else if r == "Byte"@ {
        Some(PrimitiveType::Byte)
    } else if r == "Date"@ {
        Some(PrimitiveType::Date)
    } else if r == "DateTimeOffset"@ {
        Some(PrimitiveType::DateTimeOffset)
    } else if r == "Decimal"@ {
        Some(PrimitiveType::Decimal)
    } else if r == "Double"@ {
        Some(PrimitiveType::Double)
    } else if r == "Duration"@ {
        Some(PrimitiveType::Duration)
    } else if r == "Guid"@ {
        Some(PrimitiveType::Guid)
    } else if r == "Int16"@ {
        Some(PrimitiveType::Int16)
    } else if r == "Int32"@ {
        Some(PrimitiveType::Int32)
    } else if r == "Int64"@ {
        Some(PrimitiveType::Int64)
    } else if r == "SByte"@ {
        Some(PrimitiveType::SByte)
    } else if r == "Single"@ {
        Some(PrimitiveType::Single)
    } else if r == "String"@ {
        Some(PrimitiveType::String)
    } else if r == "TimeOfDay"@ {
        Some(PrimitiveType::TimeOfDay)
    } else {
        None
    }
}

/// The primitive type an `Edm.`-qualified name denotes.
pub open spec fn spec_primitive(type_ref: Seq<char>) -> Option<PrimitiveType> {
    match strip_prefix(type_ref, "Edm."@) {
        Some(rest) => primitive_named(rest),
        None => None,
    }
}

/// Each primitive type of the `Edm` namespace is denoted by its own CSDL
/// name, qualified with `Edm.`: `Edm.Int64` is `Int64`, `Edm.Int32` is
/// `Int32`, and so on for every one; and no two names denote one type.
pub proof fn lemma_primitive_names()
    ensures
        forall|n: Seq<char>| #[trigger] spec_primitive("Edm."@ + n) == primitive_named(n),
        primitive_named("Binary"@) == Some(PrimitiveType::Binary),
        primitive_named("Boolean"@) == Some(PrimitiveType::Boolean),
        primitive_named("Byte"@) == Some(PrimitiveType::Byte),
        primitive_named("Date"@) == Some(PrimitiveType::Date),
        primitive_named("DateTimeOffset"@) == Some(PrimitiveType::DateTimeOffset),
        primitive_named("Decimal"@) == Some(PrimitiveType::Decimal),
        primitive_named("Double"@) == Some(PrimitiveType::Double),
        primitive_named("Duration"@) == Some(PrimitiveType::Duration),
        primitive_named("Guid"@) == Some(PrimitiveType::Guid),
        primitive_named("Int16"@) == Some(PrimitiveType::Int16),
        primitive_named("Int32"@) == Some(PrimitiveType::Int32),
        primitive_named("Int64"@) == Some(PrimitiveType::Int64),
        primitive_named("SByte"@) == Some(PrimitiveType::SByte),
        primitive_named("Single"@) == Some(PrimitiveType::Single),
        primitive_named("String"@) == Some(PrimitiveType::String),
        primitive_named("TimeOfDay"@) == Some(PrimitiveType::TimeOfDay),
        forall|a: Seq<char>, b: Seq<char>|
            #[trigger] primitive_named(a) is Some && primitive_named(a) == #[trigger] primitive_named(b) ==> a == b,
{
    reveal_strlit("Edm.");
    assert forall|n: Seq<char>| #[trigger] spec_primitive("Edm."@ + n) == primitive_named(n) by {
        let q = "Edm."@ + n;
        assert(q.take(4) =~= "Edm."@);
        assert(q.skip(4) =~= n);
    }
    reveal_strlit("Binary");
    reveal_strlit("Boolean");
    reveal_strlit("Byte");
    reveal_strlit("Date");
    reveal_strlit("DateTimeOffset");
    reveal_strlit("Decimal");
    reveal_strlit("Double");
    reveal_strlit("Duration");
    reveal_strlit("Guid");
    reveal_strlit("Int16");
    reveal_strlit("Int32");
    reveal_strlit("Int64");
    reveal_strlit("SByte");
    reveal_strlit("Single");
    reveal_strlit("String");
    reveal_strlit("TimeOfDay");
    assert("Binary"@.len() != "Boolean"@.len());
    assert("Binary"@.len() != "Byte"@.len());
    assert("Boolean"@.len() != "Byte"@.len());
    assert("Binary"@.len() != "Date"@.len());
    assert("Boolean"@.len() != "Date"@.len());
    assert("Byte"@[0] != "Date"@[0]);
    assert("Binary"@.len() != "DateTimeOffset"@.len());
    assert("Boolean"@.len() != "DateTimeOffset"@.len());
    assert("Byte"@.len() != "DateTimeOffset"@.len());
    assert("Date"@.len() != "DateTimeOffset"@.len());
    assert("Binary"@.len() != "Decimal"@.len());
    assert("Boolean"@[0] != "Decimal"@[0]);
    assert("Byte"@.len() != "Decimal"@.len());
    assert("Date"@.len() != "Decimal"@.len());
    assert("DateTimeOffset"@.len() != "Decimal"@.len());
    assert("Binary"@[0] != "Double"@[0]);
    assert("Boolean"@.len() != "Double"@.len());
    assert("Byte"@.len() != "Double"@.len());
    assert("Date"@.len() != "Double"@.len());
    assert("DateTimeOffset"@.len() != "Double"@.len());
    assert("Decimal"@.len() != "Double"@.len());
    assert("Binary"@.len() != "Duration"@.len());
    assert("Boolean"@.len() != "Duration"@.len());
    assert("Byte"@.len() != "Duration"@.len());
    assert("Date"@.len() != "Duration"@.len());
    assert("DateTimeOffset"@.len() != "Duration"@.len());
    assert("Decimal"@.len() != "Duration"@.len());
    assert("Double"@.len() != "Duration"@.len());
    assert("Binary"@.len() != "Guid"@.len());
    assert("Boolean"@.len() != "Guid"@.len());
    assert("Byte"@[0] != "Guid"@[0]);
    assert("Date"@[0] != "Guid"@[0]);
    assert("DateTimeOffset"@.len() != "Guid"@.len());
    assert("Decimal"@.len() != "Guid"@.len());
    assert("Double"@.len() != "Guid"@.len());
    assert("Duration"@.len() != "Guid"@.len());
    assert("Binary"@.len() != "Int16"@.len());
    assert("Boolean"@.len() != "Int16"@.len());
    assert("Byte"@.len() != "Int16"@.len());
    assert("Date"@.len() != "Int16"@.len());
    assert("DateTimeOffset"@.len() != "Int16"@.len());
    assert("Decimal"@.len() != "Int16"@.len());
    assert("Double"@.len() != "Int16"@.len());
    assert("Duration"@.len() != "Int16"@.len());
    assert("Guid"@.len() != "Int16"@.len());
    assert("Binary"@.len() != "Int32"@.len());
    assert("Boolean"@.len() != "Int32"@.len());
    assert("Byte"@.len() != "Int32"@.len());
    assert("Date"@.len() != "Int32"@.len());
    assert("DateTimeOffset"@.len() != "Int32"@.len());
    assert("Decimal"@.len() != "Int32"@.len());
    assert("Double"@.len() != "Int32"@.len());
    assert("Duration"@.len() != "Int32"@.len());
    assert("Guid"@.len() != "Int32"@.len());
    assert("Int16"@[3] != "Int32"@[3]);
    assert("Binary"@.len() != "Int64"@.len());
    assert("Boolean"@.len() != "Int64"@.len());
    assert("Byte"@.len() != "Int64"@.len());
    assert("Date"@.len() != "Int64"@.len());
    assert("DateTimeOffset"@.len() != "Int64"@.len());
    assert("Decimal"@.len() != "Int64"@.len());
    assert("Double"@.len() != "Int64"@.len());
    assert("Duration"@.len() != "Int64"@.len());
    assert("Guid"@.len() != "Int64"@.len());
    assert("Int16"@[3] != "Int64"@[3]);
    assert("Int32"@[3] != "Int64"@[3]);
    assert("Binary"@.len() != "SByte"@.len());
    assert("Boolean"@.len() != "SByte"@.len());
    assert("Byte"@.len() != "SByte"@.len());
    assert("Date"@.len() != "SByte"@.len());
    assert("DateTimeOffset"@.len() != "SByte"@.len());
    assert("Decimal"@.len() != "SByte"@.len());
    assert("Double"@.len() != "SByte"@.len());
    assert("Duration"@.len() != "SByte"@.len());
    assert("Guid"@.len() != "SByte"@.len());
    assert("Int16"@[0] != "SByte"@[0]);
    assert("Int32"@[0] != "SByte"@[0]);
    assert("Int64"@[0] != "SByte"@[0]);
    assert("Binary"@[0] != "Single"@[0]);
    assert("Boolean"@.len() != "Single"@.len());
    assert("Byte"@.len() != "Single"@.len());
    assert("Date"@.len() != "Single"@.len());
    assert("DateTimeOffset"@.len() != "Single"@.len());
    assert("Decimal"@.len() != "Single"@.len());
    assert("Double"@[0] != "Single"@[0]);
    assert("Duration"@.len() != "Single"@.len());
    assert("Guid"@.len() != "Single"@.len());
    assert("Int16"@.len() != "Single"@.len());
    assert("Int32"@.len() != "Single"@.len());
    assert("Int64"@.len() != "Single"@.len());
    assert("SByte"@.len() != "Single"@.len());
    assert("Binary"@[0] != "String"@[0]);
    assert("Boolean"@.len() != "String"@.len());
    assert("Byte"@.len() != "String"@.len());
    assert("Date"@.len() != "String"@.len());
    assert("DateTimeOffset"@.len() != "String"@.len());
    assert("Decimal"@.len() != "String"@.len());
    assert("Double"@[0] != "String"@[0]);
    assert("Duration"@.len() != "String"@.len());
    assert("Guid"@.len() != "String"@.len());
    assert("Int16"@.len() != "String"@.len());
    assert("Int32"@.len() != "String"@.len());
    assert("Int64"@.len() != "String"@.len());
    assert("SByte"@.len() != "String"@.len());
    assert("Single"@[1] != "String"@[1]);
    assert("Binary"@.len() != "TimeOfDay"@.len());
    assert("Boolean"@.len() != "TimeOfDay"@.len());
    assert("Byte"@.len() != "TimeOfDay"@.len());
    assert("Date"@.len() != "TimeOfDay"@.len());
    assert("DateTimeOffset"@.len() != "TimeOfDay"@.len());
    assert("Decimal"@.len() != "TimeOfDay"@.len());
    assert("Double"@.len() != "TimeOfDay"@.len());
    assert("Duration"@.len() != "TimeOfDay"@.len());
    assert("Guid"@.len() != "TimeOfDay"@.len());
    assert("Int16"@.len() != "TimeOfDay"@.len());
    assert("Int32"@.len() != "TimeOfDay"@.len());
    assert("Int64"@.len() != "TimeOfDay"@.len());
    assert("SByte"@.len() != "TimeOfDay"@.len());
    assert("Single"@.len() != "TimeOfDay"@.len());
    assert("String"@.len() != "TimeOfDay"@.len());
}

pub fn resolve_primitive(type_ref: &str) -> (r: Option<PrimitiveType>)
    ensures
        r == spec_primitive(type_ref@),
{
    let rest = match strip_prefix_str(type_ref, "Edm.") {
        Some(r) => r,
        None => return None,
    };
    let r = rest.as_str();
    if str_eq(r, "Binary") {
        Some(PrimitiveType::Binary)
    } else if str_eq(r, "Boolean") {
        Some(PrimitiveType::Boolean)
    } else if str_eq(r, "Byte") {
        Some(PrimitiveType::Byte)
    } else if str_eq(r, "Date") {
        Some(PrimitiveType::Date)
    } else if str_eq(r, "DateTimeOffset") {
        Some(PrimitiveType::DateTimeOffset)
    } else if str_eq(r, "Decimal") {
        Some(PrimitiveType::Decimal)
    } else if str_eq(r, "Double") {
        Some(PrimitiveType::Double)
    } else if str_eq(r, "Duration") {
        Some(PrimitiveType::Duration)
    } else if str_eq(r, "Guid") {
        Some(PrimitiveType::Guid)
    } else if str_eq(r, "Int16") {
        Some(PrimitiveType::Int16)
    } else if str_eq(r, "Int32") {
        Some(PrimitiveType::Int32)
    } else if str_eq(r, "Int64") {
        Some(PrimitiveType::Int64)
    } else if str_eq(r, "SByte") {
        Some(PrimitiveType::SByte)
    } else if str_eq(r, "Single") {
        Some(PrimitiveType::Single)
    } else if str_eq(r, "String") {
        Some(PrimitiveType::String)
    } else if str_eq(r, "TimeOfDay") {
        Some(PrimitiveType::TimeOfDay)
    } else {
        None
    }
}

} // verus!
