//! Reference resolution: from the syntactic CSDL model to the semantic model.

use vstd::prelude::*;

pub mod lookup;
pub mod types;
pub mod inherit;
pub mod operations;
pub mod phases;
pub mod container;
pub mod paths;
pub mod assemble;
pub mod rendering;

use crate::csdl;
use crate::edm::{DocumentModel, Include, IncludeAnnotations, Model, Reference};
use crate::resolver::assemble::{model_built, resolve_schema, spec_schema_error};
use crate::resolver::container::opt_str;
use crate::resolver::lookup::aliases_view;
use crate::text::owned;


verus! {

#[derive(Debug)]
pub enum ResolveError {
    UnknownType(String),
    UnknownEntity(String),
    DuplicateName(String),
    NoSchemaInDocument,
    MissingTypeName { element_kind: &'static str, element_name: String },
    UnknownPropertyPath { entity: String, key_path: String },
    UnsupportedCsdlFeature { feature: &'static str, location: String },
}

/// A resolution error as character sequences.
pub enum ResolveErrorView {
    UnknownType(Seq<char>),
    UnknownEntity(Seq<char>),
    DuplicateName(Seq<char>),
    NoSchemaInDocument,
    MissingTypeName { element_kind: Seq<char>, element_name: Seq<char> },
    UnknownPropertyPath { entity: Seq<char>, key_path: Seq<char> },
    UnsupportedCsdlFeature { feature: Seq<char>, location: Seq<char> },
}

impl View for ResolveError {
    type V = ResolveErrorView;

    open spec fn view(&self) -> ResolveErrorView {
        match self {
            ResolveError::UnknownType(s) => ResolveErrorView::UnknownType(s@),
            ResolveError::UnknownEntity(s) => ResolveErrorView::UnknownEntity(s@),
            ResolveError::DuplicateName(s) => ResolveErrorView::DuplicateName(s@),
            ResolveError::NoSchemaInDocument => ResolveErrorView::NoSchemaInDocument,
            ResolveError::MissingTypeName { element_kind, element_name } => ResolveErrorView::MissingTypeName {
                element_kind: element_kind@,
                element_name: element_name@,
            },
            ResolveError::UnknownPropertyPath { entity, key_path } => ResolveErrorView::UnknownPropertyPath {
                entity: entity@,
                key_path: key_path@,
            },
            ResolveError::UnsupportedCsdlFeature { feature, location } => ResolveErrorView::UnsupportedCsdlFeature {
                feature: feature@,
                location: location@,
            },
        }
    }
}

} // verus!

verus! {

/// The aliases the document's references declare, in document order.
pub open spec fn include_aliases(incs: Seq<csdl::Include>) -> Seq<(Seq<char>, Seq<char>)>
    decreases incs.len(),
{
    if incs.len() == 0 {
        Seq::empty()
    } else {
        let rest = include_aliases(incs.drop_last());
        match incs.last().alias {
            Some(a) => rest.push((a@, incs.last().namespace@)),
            None => rest,
        }
    }
}

pub open spec fn document_aliases(refs: Seq<csdl::Reference>) -> Seq<(Seq<char>, Seq<char>)>
    decreases refs.len(),
{
    if refs.len() == 0 {
        Seq::empty()
    } else {
        document_aliases(refs.drop_last()) + include_aliases(refs.last().includes@)
    }
}

/// The aliases a schema is resolved under: the document's, then its own
/// alias for its namespace (a later entry wins).
pub open spec fn schema_aliases(
    doc: Seq<(Seq<char>, Seq<char>)>,
    schema: csdl::Schema,
) -> Seq<(Seq<char>, Seq<char>)> {
    match schema.alias {
        Some(a) => doc.push((a@, schema.namespace@)),
        None => doc,
    }
}

/// The first error among the first `n` schemas.
pub open spec fn schemas_error(
    schemas: Seq<csdl::Schema>,
    doc: Seq<(Seq<char>, Seq<char>)>,
    n: int,
) -> Option<ResolveErrorView>
    decreases n,
{
    if n <= 0 {
        None
    } else {
        match schemas_error(schemas, doc, n - 1) {
            Some(e) => Some(e),
            None => spec_schema_error(
                schemas[n - 1].elements@,
                schemas[n - 1].namespace@,
                schema_aliases(doc, schemas[n - 1]),
            ),
        }
    }
}

/// Why a document does not resolve: the first schema that does not, or no
/// schema at all.
pub open spec fn spec_document_error(d: csdl::Edmx) -> Option<ResolveErrorView> {
    match schemas_error(d.schemas@, document_aliases(d.references@), d.schemas@.len() as int) {
        Some(e) => Some(e),
        None => if d.schemas@.len() == 0 {
            Some(ResolveErrorView::NoSchemaInDocument)
        } else {
            None
        },
    }
}

pub open spec fn references_copied(out: Seq<Reference>, src: Seq<csdl::Reference>) -> bool {
    &&& out.len() == src.len()
    &&& forall|i: int|
        0 <= i < out.len() ==> {
            &&& (#[trigger] out[i]).uri@ == src[i].uri@
            &&& out[i].includes@.len() == src[i].includes@.len()
            &&& forall|j: int|
                0 <= j < out[i].includes@.len() ==> (#[trigger] out[i].includes@[j]).namespace@
                    == src[i].includes@[j].namespace@ && opt_str(out[i].includes@[j].alias) == opt_str(
                    src[i].includes@[j].alias,
                )
            &&& out[i].include_annotations@.len() == src[i].include_annotations@.len()
            &&& forall|j: int|
                0 <= j < out[i].include_annotations@.len() ==> {
                    &&& (#[trigger] out[i].include_annotations@[j]).term_namespace@
                        == src[i].include_annotations@[j].term_namespace@
                    &&& opt_str(out[i].include_annotations@[j].target_namespace) == opt_str(
                        src[i].include_annotations@[j].target_namespace,
                    )
                    &&& opt_str(out[i].include_annotations@[j].qualifier) == opt_str(
                        src[i].include_annotations@[j].qualifier,
                    )
                }
        }
}

/// The model a document that resolves resolves to.
pub open spec fn document_built(d: csdl::Edmx, m: DocumentModel) -> bool {
    let doc = document_aliases(d.references@);
    &&& m.version@ == match d.version {
        Some(v) => v@,
        None => "4.01"@,
    }
    &&& references_copied(m.references@, d.references@)
    &&& m.schemas@.len() == d.schemas@.len()
    &&& forall|i: int|
        0 <= i < m.schemas@.len() ==> model_built(
            d.schemas@[i],
            schema_aliases(doc, d.schemas@[i]),
            #[trigger] m.schemas@[i],
        )
}

fn copy_opt(o: &Option<String>) -> (r: Option<String>)
    ensures
        opt_str(r) == opt_str(*o),
{
    match o {
        Some(x) => Some(owned(x.as_str())),
        None => None,
    }
}

fn push_alias(al: &mut Vec<(String, String)>, a: &str, ns: &str)
    ensures
        aliases_view(final(al)@) == aliases_view(old(al)@).push((a@, ns@)),
{
    let ghost o = al@;
    al.push((owned(a), owned(ns)));
    proof {
        assert(aliases_view(al@) =~= aliases_view(o).push((a@, ns@)));
    }
}

fn collect_document_aliases(refs: &Vec<csdl::Reference>) -> (r: Vec<(String, String)>)
    ensures
        aliases_view(r@) == document_aliases(refs@),
{
    let mut out: Vec<(String, String)> = Vec::new();
    proof {
        assert(aliases_view(out@) =~= Seq::<(Seq<char>, Seq<char>)>::empty());
    }
    let mut i: usize = 0;
    while i < refs.len()
        invariant
            i <= refs@.len(),
            aliases_view(out@) == document_aliases(refs@.take(i as int)),
        decreases refs.len() - i,
    {
        let incs = &refs[i].includes;
        let ghost before = aliases_view(out@);
        let mut j: usize = 0;
        proof {
            assert(before + include_aliases(incs@.take(0)) =~= before);
        }
        while j < incs.len()
            invariant
                j <= incs@.len(),
                aliases_view(out@) == before + include_aliases(incs@.take(j as int)),
            decreases incs.len() - j,
        {
            proof {
                assert(incs@.take(j + 1).drop_last() =~= incs@.take(j as int));
                assert(incs@.take(j + 1).last() == incs@[j as int]);
            }
            match &incs[j].alias {
                Some(a) => {
                    push_alias(&mut out, a.as_str(), incs[j].namespace.as_str());
                    proof {
                        assert(before + include_aliases(incs@.take(j + 1)) =~= (before
                            + include_aliases(incs@.take(j as int))).push((a@, incs@[j as int].namespace@)));
                    }
                },
                None => {},
            }
            j = j + 1;
        }
        proof {
            assert(incs@.take(incs@.len() as int) =~= incs@);
            assert(refs@.take(i + 1).drop_last() =~= refs@.take(i as int));
            assert(refs@.take(i + 1).last() == refs@[i as int]);
        }
        i = i + 1;
    }
    proof {
        assert(refs@.take(refs@.len() as int) =~= refs@);
    }
    out
}

fn copy_references(refs: &Vec<csdl::Reference>) -> (r: Vec<Reference>)
    ensures
        references_copied(r@, refs@),
{
    let mut out: Vec<Reference> = Vec::new();
    let mut i: usize = 0;
    while i < refs.len()
        invariant
            i <= refs@.len(),
            references_copied(out@, refs@.take(i as int)),
        decreases refs.len() - i,
    {
        let src = &refs[i];
        let mut includes: Vec<Include> = Vec::new();
        let mut j: usize = 0;
        while j < src.includes.len()
            invariant
                j <= src.includes@.len(),
                includes@.len() == j,
                forall|x: int|
                    0 <= x < j ==> (#[trigger] includes@[x]).namespace@ == src.includes@[x].namespace@
                        && opt_str(includes@[x].alias) == opt_str(src.includes@[x].alias),
            decreases src.includes.len() - j,
        {
            includes.push(
                Include {
                    namespace: owned(src.includes[j].namespace.as_str()),
                    alias: copy_opt(&src.includes[j].alias),
                },
            );
            j = j + 1;
        }
        let mut include_annotations: Vec<IncludeAnnotations> = Vec::new();
        let mut j: usize = 0;
        while j < src.include_annotations.len()
            invariant
                j <= src.include_annotations@.len(),
                include_annotations@.len() == j,
                forall|x: int|
                    0 <= x < j ==> {
                        &&& (#[trigger] include_annotations@[x]).term_namespace@
                            == src.include_annotations@[x].term_namespace@
                        &&& opt_str(include_annotations@[x].target_namespace) == opt_str(
                            src.include_annotations@[x].target_namespace,
                        )
                        &&& opt_str(include_annotations@[x].qualifier) == opt_str(
                            src.include_annotations@[x].qualifier,
                        )
                    },
            decreases src.include_annotations.len() - j,
        {
            let a = &src.include_annotations[j];
            include_annotations.push(
                IncludeAnnotations {
                    term_namespace: owned(a.term_namespace.as_str()),
                    target_namespace: copy_opt(&a.target_namespace),
                    qualifier: copy_opt(&a.qualifier),
                },
            );
            j = j + 1;
        }
        out.push(Reference { uri: owned(src.uri.as_str()), includes, include_annotations });
        proof {
            assert(refs@.take(i + 1) =~= refs@.take(i as int).push(refs@[i as int]));
        }
        i = i + 1;
    }
    proof {
        assert(refs@.take(refs@.len() as int) =~= refs@);
    }
    out
}

proof fn lemma_schemas_error_stays(
    schemas: Seq<csdl::Schema>,
    doc: Seq<(Seq<char>, Seq<char>)>,
    i: int,
    n: int,
)
    requires
        0 <= i <= n,
        schemas_error(schemas, doc, i) is Some,
    ensures
        schemas_error(schemas, doc, n) == schemas_error(schemas, doc, i),
    decreases n - i,
{
    if i < n {
        lemma_schemas_error_stays(schemas, doc, i, n - 1);
    }
}

/// Resolves CSDL documents and schemas into models.
pub struct Resolver;

impl Resolver {
    /// Resolves every schema of a document, under the aliases its references
    /// declare and each schema's own alias.
    pub fn resolve_document(document: csdl::Edmx) -> (r: Result<DocumentModel, ResolveError>)
        ensures
            match spec_document_error(document) {
                Some(e) => r is Err && r->Err_0@ == e,
                None => r is Ok && document_built(document, r->Ok_0),
            },
    {
        let doc = collect_document_aliases(&document.references);
        let ghost dv = aliases_view(doc@);
        let mut schemas: Vec<Model> = Vec::new();
        let mut i: usize = 0;
        while i < document.schemas.len()
            invariant
                i <= document.schemas@.len(),
                dv == aliases_view(doc@),
                dv == document_aliases(document.references@),
                schemas_error(document.schemas@, dv, i as int) is None,
                schemas@.len() == i,
                forall|x: int|
                    0 <= x < i ==> model_built(
                        document.schemas@[x],
                        schema_aliases(dv, document.schemas@[x]),
                        #[trigger] schemas@[x],
                    ),
            decreases document.schemas.len() - i,
        {
            let schema = &document.schemas[i];
            let mut al: Vec<(String, String)> = Vec::new();
            let mut k: usize = 0;
            while k < doc.len()
                invariant
                    k <= doc@.len(),
                    aliases_view(al@) == aliases_view(doc@.take(k as int)),
                decreases doc.len() - k,
            {
                push_alias(&mut al, doc[k].0.as_str(), doc[k].1.as_str());
                proof {
                    assert(aliases_view(doc@.take(k + 1)) =~= aliases_view(doc@.take(k as int)).push(
                        (doc@[k as int].0@, doc@[k as int].1@),
                    ));
                }
                k = k + 1;
            }
            proof {
                assert(doc@.take(doc@.len() as int) =~= doc@);
            }
            match &schema.alias {
                Some(a) => push_alias(&mut al, a.as_str(), schema.namespace.as_str()),
                None => {},
            }
            match resolve_schema(schema, &al) {
                Err(e) => {
                    proof {
                        lemma_schemas_error_stays(document.schemas@, dv, i + 1, document.schemas@.len() as int);
                    }
                    return Err(e);
                },
                Ok(m) => {
                    schemas.push(m);
                },
            }
            i = i + 1;
        }
        if schemas.len() == 0 {
            return Err(ResolveError::NoSchemaInDocument);
        }
        let version = match &document.version {
            Some(v) => owned(v.as_str()),
            None => {
                let v = owned("4.01");
                proof {
                    reveal_strlit("4.01");
                }
                v
            },
        };
        Ok(DocumentModel { version, references: copy_references(&document.references), schemas })
    }

    /// Same as [`Resolver::resolve_document`].
    pub fn resolve_edmx_document(document: csdl::Edmx) -> (r: Result<DocumentModel, ResolveError>)
        ensures
            match spec_document_error(document) {
                Some(e) => r is Err && r->Err_0@ == e,
                None => r is Ok && document_built(document, r->Ok_0),
            },
    {
        Self::resolve_document(document)
    }

    /// Resolves a single schema under its own alias.
    pub fn resolve(schema: csdl::Schema) -> (r: Result<Model, ResolveError>)
        ensures
            match spec_schema_error(
                schema.elements@,
                schema.namespace@,
                schema_aliases(Seq::empty(), schema),
            ) {
                Some(e) => r is Err && r->Err_0@ == e,
                None => r is Ok && model_built(schema, schema_aliases(Seq::empty(), schema), r->Ok_0),
            },
    {
        let mut al: Vec<(String, String)> = Vec::new();
        proof {
            assert(aliases_view(al@) =~= Seq::<(Seq<char>, Seq<char>)>::empty());
        }
        match &schema.alias {
            Some(a) => push_alias(&mut al, a.as_str(), schema.namespace.as_str()),
            None => {},
        }
        resolve_schema(&schema, &al)
    }
}

} // verus!
