//! Resolution of functions and actions: the types of their parameters and
//! return types.

use vstd::prelude::*;

use crate::csdl;
use crate::edm::{Action, Function, OperationParameter, OperationReturnType, TermType};
use crate::resolver::inherit::qualified;
use crate::resolver::lookup::aliases_view;
use crate::resolver::types::{resolve_term_type, rv, spec_resolve_term_type};
use crate::resolver::{ResolveError, ResolveErrorView};
use crate::text::{concat, concat3, owned};

verus! {

/// How an error names a parameter: `Kind.operation(parameter)`.
pub open spec fn parameter_label(kind: Seq<char>, op: Seq<char>, p: Seq<char>) -> Seq<char> {
    kind + "."@ + op + "("@ + p + ")"@
}

/// Type of one parameter.
pub open spec fn spec_parameter_type(
    p: csdl::Parameter,
    kind: Seq<char>,
    op: Seq<char>,
    s: Seq<csdl::SchemaElement>,
    ns: Seq<char>,
    al: Seq<(Seq<char>, Seq<char>)>,
) -> Result<TermType, ResolveErrorView> {
    match p.type_ref {
        None => Err(
            ResolveErrorView::MissingTypeName {
                element_kind: "Parameter"@,
                element_name: parameter_label(kind, op, p.name@),
            },
        ),
        Some(t) => spec_resolve_term_type(t@, s, ns, al),
    }
}

/// Types of the parameters, or the first error.
pub open spec fn spec_parameter_types(
    ps: Seq<csdl::Parameter>,
    kind: Seq<char>,
    op: Seq<char>,
    s: Seq<csdl::SchemaElement>,
    ns: Seq<char>,
    al: Seq<(Seq<char>, Seq<char>)>,
) -> Result<Seq<TermType>, ResolveErrorView>
    decreases ps.len(),
{
    if ps.len() == 0 {
        Ok(Seq::<TermType>::empty())
    } else {
        match spec_parameter_types(ps.drop_last(), kind, op, s, ns, al) {
            Err(e) => Err(e),
            Ok(ts) => match spec_parameter_type(ps.last(), kind, op, s, ns, al) {
                Err(e) => Err(e),
                Ok(t) => Ok(ts.push(t)),
            },
        }
    }
}

/// The return type, if one is declared.
pub open spec fn spec_return_type(
    r: Option<csdl::ReturnType>,
    kind: Seq<char>,
    op: Seq<char>,
    s: Seq<csdl::SchemaElement>,
    ns: Seq<char>,
    al: Seq<(Seq<char>, Seq<char>)>,
) -> Result<Option<TermType>, ResolveErrorView> {
    match r {
        None => Ok(None),
        Some(rt) => match rt.type_ref {
            None => Err(
                ResolveErrorView::MissingTypeName {
                    element_kind: "ReturnType"@,
                    element_name: kind + "."@ + op,
                },
            ),
            Some(t) => match spec_resolve_term_type(t@, s, ns, al) {
                Err(e) => Err(e),
                Ok(tt) => Ok(Some(tt)),
            },
        },
    }
}

/// `out` holds the parameters `src` with the types `tys`.
pub open spec fn parameters_built(
    out: Seq<OperationParameter>,
    src: Seq<csdl::Parameter>,
    tys: Seq<TermType>,
) -> bool {
    &&& out.len() == src.len()
    &&& tys.len() == src.len()
    &&& forall|j: int|
        0 <= j < out.len() ==> {
            &&& (#[trigger] out[j]).name@ == src[j].name@
            &&& out[j].ty == tys[j]
            &&& out[j].is_collection == src[j].is_collection
        }
}

/// `out` is the return type `src` with the type `t`.
pub open spec fn return_built(
    out: Option<OperationReturnType>,
    src: Option<csdl::ReturnType>,
    t: Option<TermType>,
) -> bool {
    match (out, src, t) {
        (None, None, None) => true,
        (Some(o), Some(r), Some(tt)) => o.ty == tt && o.is_collection == r.is_collection,
        _ => false,
    }
}

proof fn lemma_parameter_types_err(
    ps: Seq<csdl::Parameter>,
    i: int,
    kind: Seq<char>,
    op: Seq<char>,
    s: Seq<csdl::SchemaElement>,
    ns: Seq<char>,
    al: Seq<(Seq<char>, Seq<char>)>,
)
    requires
        0 <= i <= ps.len(),
        spec_parameter_types(ps.take(i), kind, op, s, ns, al) is Err,
    ensures
        spec_parameter_types(ps, kind, op, s, ns, al) == spec_parameter_types(
            ps.take(i),
            kind,
            op,
            s,
            ns,
            al,
        ),
    decreases ps.len() - i,
{
    if i < ps.len() {
        assert(ps.take(i + 1).drop_last() =~= ps.take(i));
        lemma_parameter_types_err(ps, i + 1, kind, op, s, ns, al);
    } else {
        assert(ps.take(i) =~= ps);
    }
}

fn parameter_label_of(kind: &str, op: &str, p: &str) -> (r: String)
    ensures
        r@ == parameter_label(kind@, op@, p@),
{
    let a = concat3(kind, ".", op);
    let b = concat3(a.as_str(), "(", p);
    concat(b.as_str(), ")")
}

/// Resolves the parameters of an operation of the given kind and name.
pub fn resolve_operation_parameters(
    ps: &Vec<csdl::Parameter>,
    kind: &'static str,
    op: &str,
    elems: &Vec<csdl::SchemaElement>,
    ns: &str,
    al: &Vec<(String, String)>,
) -> (r: Result<Vec<OperationParameter>, ResolveError>)
    ensures
        match spec_parameter_types(ps@, kind@, op@, elems@, ns@, aliases_view(al@)) {
            Ok(tys) => r is Ok && parameters_built(r->Ok_0@, ps@, tys),
            Err(e) => r is Err && r->Err_0@ == e,
        },
{
    let mut out: Vec<OperationParameter> = Vec::new();
    let ghost mut tys: Seq<TermType> = Seq::empty();
    let mut i: usize = 0;
    while i < ps.len()
        invariant
            i <= ps@.len(),
            spec_parameter_types(ps@.take(i as int), kind@, op@, elems@, ns@, aliases_view(al@)) == Ok::<
                Seq<TermType>,
                ResolveErrorView,
            >(tys),
            parameters_built(out@, ps@.take(i as int), tys),
        decreases ps.len() - i,
    {
        let p = &ps[i];
        proof {
            assert(ps@.take(i + 1).drop_last() =~= ps@.take(i as int));
            assert(ps@.take(i + 1).last() == ps@[i as int]);
        }
        let ty = match &p.type_ref {
            None => {
                proof {
                    lemma_parameter_types_err(ps@, i + 1, kind@, op@, elems@, ns@, aliases_view(al@));
                }
                return Err(
                    ResolveError::MissingTypeName {
                        element_kind: "Parameter",
                        element_name: parameter_label_of(kind, op, p.name.as_str()),
                    },
                );
            },
            Some(t) => match resolve_term_type(t.as_str(), elems, ns, al) {
                Ok(ty) => ty,
                Err(e) => {
                    proof {
                        lemma_parameter_types_err(ps@, i + 1, kind@, op@, elems@, ns@, aliases_view(al@));
                    }
                    return Err(e);
                },
            },
        };
        out.push(OperationParameter { name: owned(p.name.as_str()), ty, is_collection: p.is_collection });
        proof {
            tys = tys.push(ty);
        }
        i = i + 1;
    }
    proof {
        assert(ps@.take(ps@.len() as int) =~= ps@);
    }
    Ok(out)
}

/// Resolves the return type of an operation of the given kind and name.
pub fn resolve_operation_return_type(
    rt: &Option<csdl::ReturnType>,
    kind: &'static str,
    op: &str,
    elems: &Vec<csdl::SchemaElement>,
    ns: &str,
    al: &Vec<(String, String)>,
) -> (r: Result<Option<OperationReturnType>, ResolveError>)
    ensures
        match spec_return_type(*rt, kind@, op@, elems@, ns@, aliases_view(al@)) {
            Ok(t) => r is Ok && return_built(r->Ok_0, *rt, t),
            Err(e) => r is Err && r->Err_0@ == e,
        },
{
    match rt {
        None => Ok(None),
        Some(x) => match &x.type_ref {
            None => Err(
                ResolveError::MissingTypeName {
                    element_kind: "ReturnType",
                    element_name: concat3(kind, ".", op),
                },
            ),
            Some(t) => match resolve_term_type(t.as_str(), elems, ns, al) {
                Err(e) => Err(e),
                Ok(ty) => Ok(Some(OperationReturnType { ty, is_collection: x.is_collection })),
            },
        },
    }
}

/// A function resolves when it declares a return type and all its types
/// resolve; the first failure otherwise.
pub open spec fn spec_function_error(
    f: csdl::Function,
    s: Seq<csdl::SchemaElement>,
    ns: Seq<char>,
    al: Seq<(Seq<char>, Seq<char>)>,
) -> Option<ResolveErrorView> {
    if f.return_type is None {
        Some(
            ResolveErrorView::UnsupportedCsdlFeature {
                feature: "Function without ReturnType"@,
                location: qualified(ns, f.name@),
            },
        )
    } else {
        match spec_parameter_types(f.parameters@, "Function"@, f.name@, s, ns, al) {
            Err(e) => Some(e),
            Ok(_) => match spec_return_type(f.return_type, "Function"@, f.name@, s, ns, al) {
                Err(e) => Some(e),
                Ok(_) => None,
            },
        }
    }
}

pub open spec fn spec_action_error(
    a: csdl::Action,
    s: Seq<csdl::SchemaElement>,
    ns: Seq<char>,
    al: Seq<(Seq<char>, Seq<char>)>,
) -> Option<ResolveErrorView> {
    match spec_parameter_types(a.parameters@, "Action"@, a.name@, s, ns, al) {
        Err(e) => Some(e),
        Ok(_) => match spec_return_type(a.return_type, "Action"@, a.name@, s, ns, al) {
            Err(e) => Some(e),
            Ok(_) => None,
        },
    }
}

/// The function with its types resolved (its `EntitySetPath` comes later).
pub open spec fn function_built(
    out: Function,
    f: csdl::Function,
    s: Seq<csdl::SchemaElement>,
    ns: Seq<char>,
    al: Seq<(Seq<char>, Seq<char>)>,
) -> bool {
    &&& out.name@ == f.name@
    &&& out.is_bound == match f.is_bound {
        Some(b) => b,
        None => false,
    }
    &&& out.is_composable == match f.is_composable {
        Some(b) => b,
        None => false,
    }
    &&& parameters_built(
        out.parameters@,
        f.parameters@,
        spec_parameter_types(f.parameters@, "Function"@, f.name@, s, ns, al)->Ok_0,
    )
    &&& return_built(
        out.return_type,
        f.return_type,
        spec_return_type(f.return_type, "Function"@, f.name@, s, ns, al)->Ok_0,
    )
}

pub open spec fn action_built(
    out: Action,
    a: csdl::Action,
    s: Seq<csdl::SchemaElement>,
    ns: Seq<char>,
    al: Seq<(Seq<char>, Seq<char>)>,
) -> bool {
    &&& out.name@ == a.name@
    &&& out.is_bound == match a.is_bound {
        Some(b) => b,
        None => false,
    }
    &&& parameters_built(
        out.parameters@,
        a.parameters@,
        spec_parameter_types(a.parameters@, "Action"@, a.name@, s, ns, al)->Ok_0,
    )
    &&& return_built(
        out.return_type,
        a.return_type,
        spec_return_type(a.return_type, "Action"@, a.name@, s, ns, al)->Ok_0,
    )
}

/// Resolves a function's parameters and return type.
pub fn resolve_function(
    f: &csdl::Function,
    elems: &Vec<csdl::SchemaElement>,
    ns: &str,
    al: &Vec<(String, String)>,
) -> (r: Result<Function, ResolveError>)
    ensures
        match spec_function_error(*f, elems@, ns@, aliases_view(al@)) {
            None => r is Ok && function_built(r->Ok_0, *f, elems@, ns@, aliases_view(al@))
                && r->Ok_0.entity_set_path is None,
            Some(e) => r is Err && r->Err_0@ == e,
        },
{
    if f.return_type.is_none() {
        return Err(
            ResolveError::UnsupportedCsdlFeature {
                feature: "Function without ReturnType",
                location: concat3(ns, ".", f.name.as_str()),
            },
        );
    }
    let parameters = match resolve_operation_parameters(
        &f.parameters,
        "Function",
        f.name.as_str(),
        elems,
        ns,
        al,
    ) {
        Ok(p) => p,
        Err(e) => return Err(e),
    };
    let return_type = match resolve_operation_return_type(
        &f.return_type,
        "Function",
        f.name.as_str(),
        elems,
        ns,
        al,
    ) {
        Ok(t) => t,
        Err(e) => return Err(e),
    };
    let is_bound = match f.is_bound {
        Some(b) => b,
        None => false,
    };
    let is_composable = match f.is_composable {
        Some(b) => b,
        None => false,
    };
    Ok(
        Function {
            name: owned(f.name.as_str()),
            is_bound,
            is_composable,
            entity_set_path: None,
            parameters,
            return_type,
        },
    )
}

/// Resolves an action's parameters and return type.
pub fn resolve_action(
    a: &csdl::Action,
    elems: &Vec<csdl::SchemaElement>,
    ns: &str,
    al: &Vec<(String, String)>,
) -> (r: Result<Action, ResolveError>)
    ensures
        match spec_action_error(*a, elems@, ns@, aliases_view(al@)) {
            None => r is Ok && action_built(r->Ok_0, *a, elems@, ns@, aliases_view(al@))
                && r->Ok_0.entity_set_path is None,
            Some(e) => r is Err && r->Err_0@ == e,
        },
{
    let parameters = match resolve_operation_parameters(
        &a.parameters,
        "Action",
        a.name.as_str(),
        elems,
        ns,
        al,
    ) {
        Ok(p) => p,
        Err(e) => return Err(e),
    };
    let return_type = match resolve_operation_return_type(
        &a.return_type,
        "Action",
        a.name.as_str(),
        elems,
        ns,
        al,
    ) {
        Ok(t) => t,
        Err(e) => return Err(e),
    };
    let is_bound = match a.is_bound {
        Some(b) => b,
        None => false,
    };
    Ok(Action { name: owned(a.name.as_str()), is_bound, entity_set_path: None, parameters, return_type })
}

} // verus!
