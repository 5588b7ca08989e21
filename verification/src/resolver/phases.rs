//! The checks a schema goes through before its model is built, each a pass
//! over the schema's elements in document order that stops at the first
//! failure:
//!
//! 0. effective keys of every entity type;
//! 1. registration: duplicate names per kind, type definitions' underlying
//!    primitive types;
//! 2. duplicate entity container names;
//! 3. members of entity and complex types, declared key paths, term types
//!    and base terms;
//! 4. functions and actions.

use vstd::prelude::*;

use crate::csdl;
use crate::resolver::inherit::{
    lemma_members_lengths, qualified, resolve_effective_entity_keys, resolve_members,
    spec_effective_keys, spec_key_paths, spec_members, st_keys, unit_rv, validate_entity_key_paths,
};
use crate::resolver::lookup::{aliases_view, 
    arena_id, element_kind, element_name, find_id, resolve_primitive, spec_kind, spec_name,
    spec_primitive, spec_unqualify, unqualify_to_local,
};
use crate::resolver::operations::{
    resolve_action, resolve_function, spec_action_error, spec_function_error,
};
use crate::resolver::types::{resolve_term_type, spec_resolve_term_type};
use crate::resolver::{ResolveError, ResolveErrorView};
use crate::text::{concat3, owned, str_eq, strs};

verus! {

pub open spec fn err_of<T>(r: Result<T, ResolveErrorView>) -> Option<ResolveErrorView> {
    match r {
        Ok(_) => None,
        Err(e) => Some(e),
    }
}

pub open spec fn opt_rv(o: Option<ResolveErrorView>) -> Result<(), ResolveErrorView> {
    match o {
        None => Ok(()),
        Some(e) => Err(e),
    }
}

/// An element of the same kind and name comes earlier in `s`.
pub open spec fn duplicate_before(s: Seq<csdl::SchemaElement>, i: int) -> bool {
    exists|j: int|
        0 <= j < i && spec_kind(#[trigger] s[j]) == spec_kind(s[i]) && spec_name(s[j]) == spec_name(
            s[i],
        )
}

pub open spec fn td_underlying(e: csdl::SchemaElement) -> Seq<char> {
    match e {
        csdl::SchemaElement::TypeDefinition(td) => td.underlying_type@,
        _ => Seq::<char>::empty(),
    }
}

/// The type a term declares, `Edm.String` when it declares none.
pub open spec fn term_type_name(t: csdl::Term) -> Seq<char> {
    match t.type_ref {
        Some(x) => x@,
        None => "Edm.String"@,
    }
}

/// A term's base term must name a term of this schema.
pub open spec fn spec_base_term_error(
    t: csdl::Term,
    s: Seq<csdl::SchemaElement>,
    ns: Seq<char>,
    al: Seq<(Seq<char>, Seq<char>)>,
) -> Option<ResolveErrorView> {
    match t.base_term {
        None => None,
        Some(b) => match spec_unqualify(b@, ns, al) {
            None => Some(ResolveErrorView::UnknownType(b@)),
            Some(short) => if arena_id(s, 4, short) is Some {
                None
            } else {
                Some(ResolveErrorView::UnknownType(b@))
            },
        },
    }
}

/// What the check `p` finds wrong with the element at `i`.
pub open spec fn phase_step(
    p: u8,
    s: Seq<csdl::SchemaElement>,
    ns: Seq<char>,
    al: Seq<(Seq<char>, Seq<char>)>,
    i: int,
) -> Option<ResolveErrorView> {
    let e = s[i];
    let k = spec_kind(e);
    let name = spec_name(e);
    if p == 0 {
        if k == 0 {
            err_of(spec_effective_keys(s, ns, al, name, Seq::empty(), s.len()))
        } else {
            None
        }
    } else if p == 1 {
        if k == 3 && spec_primitive(td_underlying(e)) is None {
            Some(ResolveErrorView::UnknownType(td_underlying(e)))
        } else if k <= 4 && duplicate_before(s, i) {
            Some(ResolveErrorView::DuplicateName(qualified(ns, name)))
        } else {
            None
        }
    } else if p == 2 {
        if k == 7 && duplicate_before(s, i) {
            Some(ResolveErrorView::DuplicateName(qualified(ns, name)))
        } else {
            None
        }
    } else if p == 3 {
        match e {
            csdl::SchemaElement::EntityType(x) => match spec_members(
                s,
                ns,
                al,
                0,
                name,
                Seq::empty(),
                s.len(),
            ) {
                Err(err) => Some(err),
                Ok(m) => err_of(spec_key_paths(s, ns, al, name, m, st_keys(e), s.len())),
            },
            csdl::SchemaElement::ComplexType(x) => err_of(
                spec_members(s, ns, al, 1, name, Seq::empty(), s.len()),
            ),
            csdl::SchemaElement::Term(t) => match spec_resolve_term_type(
                term_type_name(t),
                s,
                ns,
                al,
            ) {
                Err(err) => Some(err),
                Ok(_) => spec_base_term_error(t, s, ns, al),
            },
            _ => None,
        }
    } else if p == 4 {
        match e {
            csdl::SchemaElement::Function(f) => spec_function_error(f, s, ns, al),
            csdl::SchemaElement::Action(a) => spec_action_error(a, s, ns, al),
            _ => None,
        }
    } else {
        None
    }
}

/// The first failure of check `p` among the first `n` elements.
pub open spec fn phase_error(
    p: u8,
    s: Seq<csdl::SchemaElement>,
    ns: Seq<char>,
    al: Seq<(Seq<char>, Seq<char>)>,
    n: int,
) -> Option<ResolveErrorView>
    decreases n,
{
    if n <= 0 {
        None
    } else {
        match phase_error(p, s, ns, al, n - 1) {
            Some(e) => Some(e),
            None => phase_step(p, s, ns, al, n - 1),
        }
    }
}

pub proof fn lemma_phase_error_stays(
    p: u8,
    s: Seq<csdl::SchemaElement>,
    ns: Seq<char>,
    al: Seq<(Seq<char>, Seq<char>)>,
    i: int,
    n: int,
)
    requires
        0 <= i <= n,
        phase_error(p, s, ns, al, i) is Some,
    ensures
        phase_error(p, s, ns, al, n) == phase_error(p, s, ns, al, i),
    decreases n - i,
{
    if i < n {
        lemma_phase_error_stays(p, s, ns, al, i, n - 1);
    }
}

/// When a check passes, it passes at every element.
pub proof fn lemma_phase_passed(
    p: u8,
    s: Seq<csdl::SchemaElement>,
    ns: Seq<char>,
    al: Seq<(Seq<char>, Seq<char>)>,
    n: int,
)
    requires
        phase_error(p, s, ns, al, n) is None,
    ensures
        forall|i: int| 0 <= i < n ==> (#[trigger] phase_step(p, s, ns, al, i)) is None,
    decreases n,
{
    if n > 0 {
        lemma_phase_passed(p, s, ns, al, n - 1);
    }
}

fn duplicate_of(elems: &Vec<csdl::SchemaElement>, i: usize) -> (r: bool)
    requires
        i < elems@.len(),
    ensures
        r == duplicate_before(elems@, i as int),
{
    let k = element_kind(&elems[i]);
    let name = element_name(&elems[i]);
    let mut j: usize = 0;
    while j < i
        invariant
            i < elems@.len(),
            j <= i,
            k == spec_kind(elems@[i as int]),
            name@ == spec_name(elems@[i as int]),
            forall|x: int|
                0 <= x < j ==> !(spec_kind(#[trigger] elems@[x]) == k && spec_name(elems@[x])
                    == name@),
        decreases i - j,
    {
        if element_kind(&elems[j]) == k && str_eq(element_name(&elems[j]).as_str(), name.as_str()) {
            return true;
        }
        j = j + 1;
    }
    false
}

fn base_term_error(
    t: &csdl::Term,
    elems: &Vec<csdl::SchemaElement>,
    ns: &str,
    al: &Vec<(String, String)>,
) -> (r: Result<(), ResolveError>)
    ensures
        unit_rv(r) == opt_rv(spec_base_term_error(*t, elems@, ns@, aliases_view(al@))),
{
    match &t.base_term {
        None => Ok(()),
        Some(b) => match unqualify_to_local(b.as_str(), ns, al) {
            None => Err(ResolveError::UnknownType(owned(b.as_str()))),
            Some(short) => match find_id(elems, 4, short.as_str()) {
                Some(_) => Ok(()),
                None => Err(ResolveError::UnknownType(owned(b.as_str()))),
            },
        },
    }
}

/// Check `p` on the element at `i`.
fn step(
    p: u8,
    elems: &Vec<csdl::SchemaElement>,
    ns: &str,
    al: &Vec<(String, String)>,
    i: usize,
) -> (r: Result<(), ResolveError>)
    requires
        i < elems@.len(),
    ensures
        unit_rv(r) == opt_rv(phase_step(p, elems@, ns@, aliases_view(al@), i as int)),
{
    let e = &elems[i];
    let k = element_kind(e);
    let name = element_name(e);
    if p == 0 {
        if k == 0 {
            let mut visiting: Vec<String> = Vec::new();
            proof {
                assert(strs(visiting@) =~= Seq::<Seq<char>>::empty());
            }
            match resolve_effective_entity_keys(elems, ns, al, name.as_str(), &mut visiting, elems.len()) {
                Ok(_) => Ok(()),
                Err(x) => Err(x),
            }
        } else {
            Ok(())
        }
    } else if p == 1 {
        if k == 3 {
            if let csdl::SchemaElement::TypeDefinition(td) = e {
                if resolve_primitive(td.underlying_type.as_str()).is_none() {
                    return Err(ResolveError::UnknownType(owned(td.underlying_type.as_str())));
                }
            }
        }
        if k <= 4 && duplicate_of(elems, i) {
            Err(ResolveError::DuplicateName(concat3(ns, ".", name.as_str())))
        } else {
            Ok(())
        }
    } else if p == 2 {
        if k == 7 && duplicate_of(elems, i) {
            Err(ResolveError::DuplicateName(concat3(ns, ".", name.as_str())))
        } else {
            Ok(())
        }
    } else if p == 3 {
        match e {
            csdl::SchemaElement::EntityType(x) => {
                let mut visiting: Vec<String> = Vec::new();
                proof {
                    assert(strs(visiting@) =~= Seq::<Seq<char>>::empty());
                }
                match resolve_members(elems, ns, al, 0, name.as_str(), &mut visiting, elems.len()) {
                    Err(err) => Err(err),
                    Ok(m) => {
                        proof {
                            lemma_members_lengths(elems@, ns@, aliases_view(al@), 0, name@, Seq::empty(), elems@.len());
                        }
                        validate_entity_key_paths(elems, ns, al, x, &m, elems.len())
                    },
                }
            },
            csdl::SchemaElement::ComplexType(_) => {
                let mut visiting: Vec<String> = Vec::new();
                proof {
                    assert(strs(visiting@) =~= Seq::<Seq<char>>::empty());
                }
                match resolve_members(elems, ns, al, 1, name.as_str(), &mut visiting, elems.len()) {
                    Err(err) => Err(err),
                    Ok(_) => Ok(()),
                }
            },
            csdl::SchemaElement::Term(t) => {
                let ty_name: &str = match &t.type_ref {
                    Some(x) => x.as_str(),
                    None => "Edm.String",
                };
                proof {
                    reveal_strlit("Edm.String");
                }
                match resolve_term_type(ty_name, elems, ns, al) {
                    Err(err) => Err(err),
                    Ok(_) => base_term_error(t, elems, ns, al),
                }
            },
            _ => Ok(()),
        }
    } else if p == 4 {
        match e {
            csdl::SchemaElement::Function(f) => match resolve_function(f, elems, ns, al) {
                Ok(_) => Ok(()),
                Err(x) => Err(x),
            },
            csdl::SchemaElement::Action(a) => match resolve_action(a, elems, ns, al) {
                Ok(_) => Ok(()),
                Err(x) => Err(x),
            },
            _ => Ok(()),
        }
    } else {
        Ok(())
    }
}

/// Runs check `p` over the schema's elements in document order, stopping at
/// the first failure.
pub fn run_phase(
    p: u8,
    elems: &Vec<csdl::SchemaElement>,
    ns: &str,
    al: &Vec<(String, String)>,
) -> (r: Result<(), ResolveError>)
    ensures
        unit_rv(r) == opt_rv(phase_error(p, elems@, ns@, aliases_view(al@), elems@.len() as int)),
{
    let mut i: usize = 0;
    while i < elems.len()
        invariant
            i <= elems@.len(),
            phase_error(p, elems@, ns@, aliases_view(al@), i as int) is None,
        decreases elems.len() - i,
    {
        match step(p, elems, ns, al, i) {
            Err(x) => {
                proof {
                    lemma_phase_error_stays(p, elems@, ns@, aliases_view(al@), i + 1, elems@.len() as int);
                }
                return Err(x);
            },
            Ok(()) => {},
        }
        i = i + 1;
    }
    Ok(())
}

} // verus!
