//! The syntax units that spell a tree of elements, and what assembling them
//! gives: the tree itself.
//!
//! An element is spelled by its start unit, one unit per annotation
//! expression, the units of its children in order, and its end unit.

use vstd::prelude::*;

use crate::csdl_xml_reader::{attr_views, unit_view, unit_views, SyntaxUnit, UnitView};
use crate::expr::{expr_view, expr_views, lemma_expr_views, CsdlAnnotationExpression, ExprView};
use crate::parser::{assemble, assemble_prefix, assemble_step, Assembly, RawView};

verus! {

/// A syntax unit with the values the assembled tree keeps.
pub enum UnitShape {
    Start { name: Seq<char>, attributes: Seq<(String, String)> },
    Expression(CsdlAnnotationExpression),
    End { name: Seq<char> },
}

pub open spec fn unit_shape(u: SyntaxUnit) -> UnitShape {
    match u {
        SyntaxUnit::StartElement { name, attributes } => UnitShape::Start { name: name@, attributes: attributes@ },
        SyntaxUnit::AnnotationExpression(e) => UnitShape::Expression(e),
        SyntaxUnit::EndElement { name } => UnitShape::End { name: name@ },
    }
}

pub open spec fn unit_shapes(u: Seq<SyntaxUnit>) -> Seq<UnitShape> {
    u.map_values(|x: SyntaxUnit| unit_shape(x))
}

pub open spec fn expression_shapes(s: Seq<CsdlAnnotationExpression>) -> Seq<UnitShape> {
    s.map_values(|e: CsdlAnnotationExpression| UnitShape::Expression(e))
}

/// The units that spell an element.
pub open spec fn element_units(n: RawView) -> Seq<UnitShape>
    decreases n,
{
    seq![UnitShape::Start { name: n.name, attributes: n.attributes }] + expression_shapes(
        n.annotation_expressions,
    ) + forest_units(n.children) + seq![UnitShape::End { name: n.name }]
}

/// The units that spell elements one after the other.
pub open spec fn forest_units(f: Seq<RawView>) -> Seq<UnitShape>
    decreases f,
{
    if f.len() == 0 {
        Seq::empty()
    } else {
        forest_units(f.subrange(0, f.len() - 1)) + element_units(f[f.len() - 1])
    }
}

/// The units read in order from a given assembly.
pub open spec fn assemble_from(st: Assembly, u: Seq<SyntaxUnit>) -> Result<Assembly, Seq<char>>
    decreases u.len(),
{
    if u.len() == 0 {
        Ok(st)
    } else {
        match assemble_from(st, u.drop_last()) {
            Err(m) => Err(m),
            Ok(s) => assemble_step(s, u.last()),
        }
    }
}

/// A finished element goes to the innermost open element, or to the roots.
pub open spec fn close(st: Assembly, n: RawView) -> Assembly {
    if st.0.len() > 0 {
        let parent = st.0.last();
        (st.0.drop_last().push(RawView { children: parent.children.push(n), ..parent }), st.1)
    } else {
        (st.0, st.1.push(n))
    }
}

/// Finished elements, each in turn.
pub open spec fn close_all(st: Assembly, f: Seq<RawView>) -> Assembly {
    if st.0.len() > 0 {
        let parent = st.0.last();
        (st.0.drop_last().push(RawView { children: parent.children + f, ..parent }), st.1)
    } else {
        (st.0, st.1 + f)
    }
}

proof fn lemma_assemble_from_concat(st: Assembly, a: Seq<SyntaxUnit>, b: Seq<SyntaxUnit>)
    ensures
        assemble_from(st, a + b) == match assemble_from(st, a) {
            Err(m) => Err(m),
            Ok(s) => assemble_from(s, b),
        },
    decreases b.len(),
{
    if b.len() == 0 {
        assert(a + b =~= a);
    } else {
        assert((a + b).drop_last() =~= a + b.drop_last());
        assert((a + b).last() == b.last());
        lemma_assemble_from_concat(st, a, b.drop_last());
    }
}

proof fn lemma_assemble_prefix(u: Seq<SyntaxUnit>)
    ensures
        assemble_prefix(u) == assemble_from((Seq::empty(), Seq::empty()), u),
    decreases u.len(),
{
    if u.len() > 0 {
        lemma_assemble_prefix(u.drop_last());
    }
}

proof fn lemma_shapes_split(u: Seq<SyntaxUnit>, n: int)
    requires
        0 <= n <= u.len(),
    ensures
        unit_shapes(u) == unit_shapes(u.take(n)) + unit_shapes(u.skip(n)),
        u == u.take(n) + u.skip(n),
{
    assert(unit_shapes(u) =~= unit_shapes(u.take(n)) + unit_shapes(u.skip(n)));
    assert(u =~= u.take(n) + u.skip(n));
}

/// Annotation expressions go, in order, to the innermost open element.
proof fn lemma_expressions(st: Assembly, u: Seq<SyntaxUnit>, es: Seq<CsdlAnnotationExpression>)
    requires
        st.0.len() > 0,
        unit_shapes(u) == expression_shapes(es),
    ensures
        assemble_from(st, u) == Ok::<_, Seq<char>>(
            (
                st.0.drop_last().push(
                    RawView {
                        annotation_expressions: st.0.last().annotation_expressions + es,
                        ..st.0.last()
                    },
                ),
                st.1,
            ),
        ),
    decreases u.len(),
{
    assert(unit_shapes(u).len() == u.len());
    if u.len() == 0 {
        assert(es.len() == 0);
        let top = st.0.last();
        assert(top.annotation_expressions + es =~= top.annotation_expressions);
        assert(RawView { annotation_expressions: top.annotation_expressions + es, ..top } == top);
        assert(st.0.drop_last().push(top) =~= st.0);
    } else {
        let k = u.len() - 1;
        assert(expression_shapes(es).len() == es.len());
        assert forall|i: int| 0 <= i < k implies unit_shapes(u.drop_last())[i] == expression_shapes(
            es.drop_last(),
        )[i] by {
            assert(unit_shapes(u.drop_last())[i] == unit_shape(u[i]));
            assert(unit_shapes(u)[i] == unit_shape(u[i]));
            assert(expression_shapes(es)[i] == UnitShape::Expression(es[i]));
        }
        assert(unit_shapes(u.drop_last()) =~= expression_shapes(es.drop_last()));
        lemma_expressions(st, u.drop_last(), es.drop_last());
        assert(unit_shapes(u)[k] == unit_shape(u[k]));
        assert(expression_shapes(es)[k] == UnitShape::Expression(es[k]));
        assert(u.last() == SyntaxUnit::AnnotationExpression(es[k]));
        let top = st.0.last();
        let top1 = RawView { annotation_expressions: top.annotation_expressions + es.drop_last(), ..top };
        let s1 = (st.0.drop_last().push(top1), st.1);
        assert(assemble_from(st, u.drop_last()) == Ok::<_, Seq<char>>(s1));
        assert(s1.0.last() == top1);
        assert(s1.0.drop_last() =~= st.0.drop_last());
        assert((top.annotation_expressions + es.drop_last()).push(es[k]) =~= top.annotation_expressions + es);
        assert(RawView { annotation_expressions: top1.annotation_expressions.push(es[k]), ..top1 } == RawView {
            annotation_expressions: top.annotation_expressions + es,
            ..top
        });
        assert(assemble_step(s1, u.last()) == Ok::<_, Seq<char>>(
            (
                st.0.drop_last().push(RawView { annotation_expressions: top.annotation_expressions + es, ..top }),
                st.1,
            ),
        ));
    }
}

proof fn lemma_element_layout(n: RawView)
    ensures
        ({
            let es = expression_shapes(n.annotation_expressions);
            let cs = forest_units(n.children);
            let eu = element_units(n);
            &&& eu.len() == es.len() + cs.len() + 2
            &&& eu[0] == UnitShape::Start { name: n.name, attributes: n.attributes }
            &&& forall|i: int| 0 <= i < es.len() ==> eu[1 + i] == es[i]
            &&& forall|i: int| 0 <= i < cs.len() ==> eu[1 + es.len() as int + i] == cs[i]
            &&& eu[1 + es.len() as int + cs.len() as int] == UnitShape::End { name: n.name }
        }),
{
    let es = expression_shapes(n.annotation_expressions);
    let cs = forest_units(n.children);
    let x = seq![UnitShape::Start { name: n.name, attributes: n.attributes }];
    let y = seq![UnitShape::End { name: n.name }];
    let eu = element_units(n);
    assert(eu == x + es + cs + y);
    assert forall|i: int| 0 <= i < es.len() implies eu[1 + i] == es[i] by {
        assert((x + es)[1 + i] == es[i]);
        assert((x + es + cs)[1 + i] == (x + es)[1 + i]);
    }
    assert forall|i: int| 0 <= i < cs.len() implies eu[1 + es.len() as int + i] == cs[i] by {
        assert((x + es + cs)[1 + es.len() as int + i] == cs[i]);
    }
}

/// Reading the units of an element closes that element.
proof fn lemma_element(st: Assembly, u: Seq<SyntaxUnit>, n: RawView)
    requires
        unit_shapes(u) == element_units(n),
    ensures
        assemble_from(st, u) == Ok::<_, Seq<char>>(close(st, n)),
    decreases n, 1int,
{
    let es = expression_shapes(n.annotation_expressions);
    let cs = forest_units(n.children);
    let a = 1int;
    let b = a + es.len();
    let c = b + cs.len();
    assert(unit_shapes(u).len() == u.len());
    lemma_element_layout(n);
    // The start unit.
    let u0 = u.take(a);
    let u1 = u.subrange(a, b);
    let u2 = u.subrange(b, c);
    let u3 = u.subrange(c, c + 1);
    assert(u =~= u0 + u1 + u2 + u3);
    assert(unit_shapes(u)[0] == unit_shape(u[0]));
    let opened = RawView {
        name: n.name,
        attributes: n.attributes,
        annotation_expressions: Seq::empty(),
        children: Seq::empty(),
    };
    assert(u0 =~= seq![u[0]]);
    assert(u0.drop_last() =~= Seq::<SyntaxUnit>::empty());
    let st1 = (st.0.push(opened), st.1);
    match u[0] {
        SyntaxUnit::StartElement { name, attributes } => {
            assert(name@ == n.name && attributes@ == n.attributes);
        },
        _ => {
            assert(false);
        },
    }
    assert(assemble_from(st, u0.drop_last()) == Ok::<_, Seq<char>>(st));
    assert(assemble_from(st, u0) == Ok::<_, Seq<char>>(st1));
    // The annotation expressions.
    assert(unit_shapes(u1) =~= es) by {
        assert forall|i: int| 0 <= i < u1.len() implies unit_shapes(u1)[i] == es[i] by {
            assert(u1[i] == u[a + i]);
            assert(unit_shapes(u)[a + i] == element_units(n)[a + i]);
        }
    }
    lemma_expressions(st1, u1, n.annotation_expressions);
    assert(Seq::<CsdlAnnotationExpression>::empty() + n.annotation_expressions =~= n.annotation_expressions);
    let with_exprs = RawView { annotation_expressions: n.annotation_expressions, ..opened };
    assert(st1.0.drop_last() =~= st.0);
    let st2 = (st.0.push(with_exprs), st.1);
    // The children.
    assert(unit_shapes(u2) =~= cs) by {
        assert forall|i: int| 0 <= i < u2.len() implies unit_shapes(u2)[i] == cs[i] by {
            assert(u2[i] == u[b + i]);
            assert(unit_shapes(u)[b + i] == element_units(n)[b + i]);
        }
    }
    lemma_forest(st2, u2, n.children);
    let full = RawView { children: Seq::<RawView>::empty() + n.children, ..with_exprs };
    assert(Seq::<RawView>::empty() + n.children =~= n.children);
    assert(full == n);
    let st3 = (st.0.push(n), st.1);
    assert(st2.0.drop_last() =~= st.0);
    assert(close_all(st2, n.children) == st3);
    // The end unit.
    assert(unit_shapes(u)[c] == unit_shape(u[c]));
    match u[c] {
        SyntaxUnit::EndElement { name } => {
            assert(name@ == n.name);
        },
        _ => {
            assert(false);
        },
    }
    assert(u3 =~= seq![u[c]]);
    assert(u3.drop_last() =~= Seq::<SyntaxUnit>::empty());
    assert(st3.0.last() == n);
    assert(st3.0.drop_last() =~= st.0);
    assert(assemble_from(st3, u3.drop_last()) == Ok::<_, Seq<char>>(st3));
    assert(assemble_from(st3, u3) == Ok::<_, Seq<char>>(close(st, n)));
    assert(assemble_from(st1, u1) == Ok::<_, Seq<char>>(st2));
    assert(assemble_from(st2, u2) == Ok::<_, Seq<char>>(st3));
    lemma_assemble_from_concat(st, u0, u1);
    lemma_assemble_from_concat(st, u0 + u1, u2);
    lemma_assemble_from_concat(st, u0 + u1 + u2, u3);
}

/// Reading the units of elements one after the other closes each in turn.
proof fn lemma_forest(st: Assembly, u: Seq<SyntaxUnit>, f: Seq<RawView>)
    requires
        unit_shapes(u) == forest_units(f),
    ensures
        assemble_from(st, u) == Ok::<_, Seq<char>>(close_all(st, f)),
    decreases f, 0int,
{
    assert(unit_shapes(u).len() == u.len());
    if f.len() == 0 {
        assert(u.len() == 0);
        if st.0.len() > 0 {
            assert(st.0.last().children + f =~= st.0.last().children);
            assert(st.0.drop_last().push(st.0.last()) =~= st.0);
        } else {
            assert(st.1 + f =~= st.1);
        }
    } else {
        let init = f.subrange(0, f.len() - 1);
        let last = f[f.len() - 1];
        let k = forest_units(init).len();
        assert(forest_units(f) == forest_units(init) + element_units(last));
        lemma_shapes_split(u, k as int);
        let ua = u.take(k as int);
        let ub = u.skip(k as int);
        assert(unit_shapes(ua) =~= forest_units(init)) by {
            assert forall|i: int| 0 <= i < ua.len() implies unit_shapes(ua)[i] == forest_units(init)[i] by {
                assert(ua[i] == u[i]);
                assert(unit_shapes(ua)[i] == unit_shape(ua[i]));
                assert(unit_shapes(u)[i] == unit_shape(u[i]));
                assert(unit_shapes(u)[i] == forest_units(f)[i]);
                assert((forest_units(init) + element_units(last))[i] == forest_units(init)[i]);
            }
        }
        assert(unit_shapes(ub) =~= element_units(last)) by {
            assert forall|i: int| 0 <= i < ub.len() implies unit_shapes(ub)[i] == element_units(last)[i] by {
                assert(ub[i] == u[k + i]);
                assert(unit_shapes(ub)[i] == unit_shape(ub[i]));
                assert(unit_shapes(u)[k + i] == unit_shape(u[k + i]));
                assert(unit_shapes(u)[k + i] == forest_units(f)[k + i]);
                assert((forest_units(init) + element_units(last))[k + i] == element_units(last)[i]);
            }
        }
        lemma_forest(st, ua, init);
        lemma_element(close_all(st, init), ub, last);
        lemma_assemble_from_concat(st, ua, ub);
        if st.0.len() > 0 {
            let parent = st.0.last();
            assert(close_all(st, init).0.last() == RawView { children: parent.children + init, ..parent });
            assert(close_all(st, init).0.drop_last() =~= st.0.drop_last());
            assert((parent.children + init).push(last) =~= parent.children + f);
        } else {
            assert((st.1 + init).push(last) =~= st.1 + f);
        }
    }
}

/// Assembling the units that spell a sequence of elements gives those
/// elements back.
pub proof fn lemma_assemble_spelled(u: Seq<SyntaxUnit>, f: Seq<RawView>)
    requires
        unit_shapes(u) == forest_units(f),
    ensures
        assemble(u) == Ok::<_, Seq<char>>(f),
{
    let st = (Seq::<RawView>::empty(), Seq::<RawView>::empty());
    lemma_assemble_prefix(u);
    lemma_forest(st, u, f);
    assert(st.1 + f =~= f);
}

// ---------------------------------------------------------------------------
// The same, over the views of the units
// ---------------------------------------------------------------------------

/// An element tree as mathematical values: what the views of its units say.
pub struct TreeView {
    pub name: Seq<char>,
    pub attributes: Seq<(Seq<char>, Seq<char>)>,
    pub expressions: Seq<ExprView>,
    pub children: Seq<TreeView>,
}

pub open spec fn tree_of(n: RawView) -> TreeView
    decreases n,
{
    TreeView {
        name: n.name,
        attributes: attr_views(n.attributes),
        expressions: expr_views(n.annotation_expressions),
        children: trees_of(n.children),
    }
}

pub open spec fn trees_of(f: Seq<RawView>) -> Seq<TreeView>
    decreases f,
{
    if f.len() == 0 {
        Seq::empty()
    } else {
        trees_of(f.subrange(0, f.len() - 1)).push(tree_of(f[f.len() - 1]))
    }
}

pub open spec fn expression_views(s: Seq<ExprView>) -> Seq<UnitView> {
    s.map_values(|e: ExprView| UnitView::Expression(e))
}

/// The unit views that spell a tree.
pub open spec fn tree_units(t: TreeView) -> Seq<UnitView>
    decreases t,
{
    seq![UnitView::Start { name: t.name, attributes: t.attributes }] + expression_views(t.expressions)
        + trees_units(t.children) + seq![UnitView::End { name: t.name }]
}

pub open spec fn trees_units(f: Seq<TreeView>) -> Seq<UnitView>
    decreases f,
{
    if f.len() == 0 {
        Seq::empty()
    } else {
        trees_units(f.subrange(0, f.len() - 1)) + tree_units(f[f.len() - 1])
    }
}

proof fn lemma_tree_layout(t: TreeView)
    ensures
        ({
            let es = expression_views(t.expressions);
            let cs = trees_units(t.children);
            let tu = tree_units(t);
            &&& tu.len() == es.len() + cs.len() + 2
            &&& tu[0] == UnitView::Start { name: t.name, attributes: t.attributes }
            &&& forall|i: int| 0 <= i < es.len() ==> tu[1 + i] == es[i]
            &&& forall|i: int| 0 <= i < cs.len() ==> tu[1 + es.len() as int + i] == cs[i]
            &&& tu[1 + es.len() as int + cs.len() as int] == UnitView::End { name: t.name }
        }),
{
    let es = expression_views(t.expressions);
    let cs = trees_units(t.children);
    let x = seq![UnitView::Start { name: t.name, attributes: t.attributes }];
    let y = seq![UnitView::End { name: t.name }];
    let tu = tree_units(t);
    assert(tu == x + es + cs + y);
    assert forall|i: int| 0 <= i < es.len() implies tu[1 + i] == es[i] by {
        assert((x + es)[1 + i] == es[i]);
        assert((x + es + cs)[1 + i] == (x + es)[1 + i]);
    }
    assert forall|i: int| 0 <= i < cs.len() implies tu[1 + es.len() as int + i] == cs[i] by {
        assert((x + es + cs)[1 + es.len() as int + i] == cs[i]);
    }
}

/// The annotation expression a unit carries.
pub open spec fn carried(u: SyntaxUnit) -> CsdlAnnotationExpression {
    match u {
        SyntaxUnit::AnnotationExpression(e) => e,
        _ => CsdlAnnotationExpression::Null,
    }
}

/// Units whose views spell a tree spell an element with that view.
proof fn lemma_spelled_element(u: Seq<SyntaxUnit>, t: TreeView) -> (n: RawView)
    requires
        unit_views(u) == tree_units(t),
    ensures
        unit_shapes(u) == element_units(n),
        tree_of(n) == t,
    decreases t, 1int,
{
    let es = expression_views(t.expressions);
    let cs = trees_units(t.children);
    let a = 1int;
    let b = a + es.len();
    let c = b + cs.len();
    lemma_tree_layout(t);
    assert(unit_views(u).len() == u.len());
    assert(unit_views(u)[0] == unit_view(u[0]));
    let u1 = u.subrange(a, b);
    let u2 = u.subrange(b, c);
    let exprs = u1.map_values(|x: SyntaxUnit| carried(x));
    assert forall|i: int| 0 <= i < u1.len() implies u1[i] == SyntaxUnit::AnnotationExpression(exprs[i])
        && expr_view(exprs[i]) == t.expressions[i] by {
        assert(u1[i] == u[a + i]);
        assert(unit_views(u)[a + i] == unit_view(u[a + i]));
        match u[a + i] {
            SyntaxUnit::AnnotationExpression(e) => {},
            _ => {
                assert(false);
            },
        }
    }
    assert(unit_views(u2) =~= cs) by {
        assert forall|i: int| 0 <= i < u2.len() implies unit_views(u2)[i] == cs[i] by {
            assert(u2[i] == u[b + i]);
            assert(unit_views(u)[b + i] == unit_view(u[b + i]));
        }
    }
    let kids = lemma_spelled_forest(u2, t.children);
    assert(unit_views(u)[c] == unit_view(u[c]));
    match u[0] {
        SyntaxUnit::StartElement { name, attributes } => {
            match u[c] {
                SyntaxUnit::EndElement { name: end_name } => {
                    let n = RawView {
                        name: name@,
                        attributes: attributes@,
                        annotation_expressions: exprs,
                        children: kids,
                    };
                    lemma_element_layout(n);
                    assert(expression_shapes(exprs).len() == exprs.len());
                    assert(unit_shapes(u) =~= element_units(n)) by {
                        assert forall|i: int| 0 <= i < u.len() implies unit_shapes(u)[i] == element_units(n)[i] by {
                            assert(unit_shapes(u)[i] == unit_shape(u[i]));
                            if a <= i < b {
                                assert(expression_shapes(exprs)[i - a] == UnitShape::Expression(exprs[i - a]));
                                assert(u1[i - a] == u[i]);
                            } else if b <= i < c {
                                assert(u2[i - b] == u[i]);
                                assert(unit_shapes(u2)[i - b] == unit_shape(u2[i - b]));
                            }
                        }
                    }
                    lemma_expr_views(exprs);
                    assert(expr_views(exprs) =~= t.expressions);
                    assert(tree_of(n) == t);
                    return n;
                },
                _ => {
                    assert(false);
                },
            }
        },
        _ => {
            assert(false);
        },
    }
    arbitrary()
}

/// Units whose views spell trees spell elements with those views.
proof fn lemma_spelled_forest(u: Seq<SyntaxUnit>, tf: Seq<TreeView>) -> (f: Seq<RawView>)
    requires
        unit_views(u) == trees_units(tf),
    ensures
        unit_shapes(u) == forest_units(f),
        trees_of(f) == tf,
    decreases tf, 0int,
{
    assert(unit_views(u).len() == u.len());
    if tf.len() == 0 {
        assert(u.len() == 0);
        assert(unit_shapes(u) =~= forest_units(Seq::<RawView>::empty()));
        Seq::empty()
    } else {
        let init = tf.subrange(0, tf.len() - 1);
        let last = tf[tf.len() - 1];
        let k = trees_units(init).len() as int;
        assert(trees_units(tf) == trees_units(init) + tree_units(last));
        let ua = u.take(k);
        let ub = u.skip(k);
        assert(unit_views(ua) =~= trees_units(init)) by {
            assert forall|i: int| 0 <= i < ua.len() implies unit_views(ua)[i] == trees_units(init)[i] by {
                assert(ua[i] == u[i]);
                assert(unit_views(ua)[i] == unit_view(ua[i]));
                assert(unit_views(u)[i] == unit_view(u[i]));
            }
        }
        assert(unit_views(ub) =~= tree_units(last)) by {
            assert forall|i: int| 0 <= i < ub.len() implies unit_views(ub)[i] == tree_units(last)[i] by {
                assert(ub[i] == u[k + i]);
                assert(unit_views(ub)[i] == unit_view(ub[i]));
                assert(unit_views(u)[k + i] == unit_view(u[k + i]));
            }
        }
        let fa = lemma_spelled_forest(ua, init);
        let nb = lemma_spelled_element(ub, last);
        let f = fa.push(nb);
        assert(f.subrange(0, f.len() - 1) =~= fa);
        assert(forest_units(f) == forest_units(fa) + element_units(nb));
        lemma_shapes_split(u, k);
        assert(trees_of(f) =~= tf);
        f
    }
}

/// Assembling units whose views spell trees gives elements with those views.
pub proof fn lemma_assemble_spelled_views(u: Seq<SyntaxUnit>, tf: Seq<TreeView>)
    requires
        unit_views(u) == trees_units(tf),
    ensures
        assemble(u) matches Ok(f) && trees_of(f) == tf,
{
    let f = lemma_spelled_forest(u, tf);
    lemma_assemble_spelled(u, f);
}

} // verus!
