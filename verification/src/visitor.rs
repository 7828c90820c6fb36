//! AST visitor / walker infrastructure.
//!
//! The [`Visitor`] trait provides a hook for every node kind in the AST.
//! Each `visit_*` method has a default implementation that does what the
//! corresponding `walk_*` free function does: it recurses into children.
//! Implement the trait and override only the methods you care about; call
//! the matching `walk_*` function at the end of an override to keep the
//! default recursion.
//!
//! What a walk does is stated as the sequence of visits it makes
//! ([`Visit`]): each visit is a call of one of the visitor's methods on one
//! part of the tree, starting from the visitor the previous call left.

use vstd::prelude::*;
use crate::types::{
    Attribute, Directive, Element, HtmlNode, IfBranch, ScriptBlock, StyleBlock, TemplateFragment,
    TemplateNode, ThebeAst,
};

verus! {

/// One call of a [`Visitor`] method, with the part of the tree it is given.
pub enum Visit {
    Script(ScriptBlock),
    Style(StyleBlock),
    Fragment(TemplateFragment),
    TemplateNode(TemplateNode),
    HtmlNode(HtmlNode),
    Element(Element),
    IfBranch(IfBranch),
    Attribute(Attribute),
    Directive(Directive),
}

/// The visit `x` is the call that was made with the borrow `r` of the
/// visitor: `call_ensures` of the matching method holds of `r` and the part.
/// (Element and `{#if}`-branch visits are only made by the walk of an HTML
/// node, whose contract uses [`node_visit_called`].)
pub open spec fn visit_called<'a, V: Visitor + ?Sized>() -> spec_fn(&'a mut V, Visit) -> bool {
    |r: &'a mut V, x: Visit|
        match x {
            Visit::Script(s) => call_ensures(V::visit_script, (r, &s), ()),
            Visit::Style(s) => call_ensures(V::visit_style, (r, &s), ()),
            Visit::Fragment(f) => call_ensures(V::visit_template_fragment, (r, &f), ()),
            Visit::TemplateNode(n) => call_ensures(V::visit_template_node, (r, &n), ()),
            Visit::HtmlNode(n) => call_ensures(V::visit_html_node, (r, &n), ()),
            Visit::Attribute(a) => call_ensures(V::visit_attribute, (r, &a), ()),
            Visit::Directive(d) => call_ensures(V::visit_directive, (r, &d), ()),
            _ => false,
        }
}

/// As [`visit_called`], for the visits the walk of an HTML node makes:
/// elements, `{#if}` branches and child nodes.
pub open spec fn node_visit_called<'a, V: Visitor + ?Sized>() -> spec_fn(&'a mut V, Visit) -> bool {
    |r: &'a mut V, x: Visit|
        match x {
            Visit::HtmlNode(n) => call_ensures(V::visit_html_node, (r, &n), ()),
            Visit::Element(e) => call_ensures(V::visit_element, (r, &e), ()),
            Visit::IfBranch(b) => call_ensures(V::visit_if_branch, (r, &b), ()),
            _ => false,
        }
}

/// Child-node visits mean the same calls under both readings.
proof fn lemma_html_steps_widen<'a, V: Visitor + ?Sized>(
    rs: Seq<&'a mut V>,
    fs: Seq<&V>,
    items: Seq<HtmlNode>,
    s0: &V,
    s1: &V,
)
    requires
        visit_steps(visit_called::<V>(), rs, fs, html_node_visits(items), s0, s1),
    ensures
        visit_steps(node_visit_called::<V>(), rs, fs, html_node_visits(items), s0, s1),
{
    let t = html_node_visits(items);
    assert forall|i: int| 0 <= i < t.len() implies node_visit_called::<V>()(#[trigger] rs[i], t[i]) by {
        assert(t[i] == Visit::HtmlNode(items[i]));
        assert(visit_called::<V>()(rs[i], t[i]));
    }
}

/// The calls `rs` (with the visitors `fs` they left) make the visits
/// `items` in order: the first starts from `s0`, each next one from the
/// visitor the previous one left, and the last leaves `s1` (`s1 == s0`
/// when there are none).
pub open spec fn visit_steps<'a, V: ?Sized, A>(
    called: spec_fn(&'a mut V, A) -> bool,
    rs: Seq<&'a mut V>,
    fs: Seq<&V>,
    items: Seq<A>,
    s0: &V,
    s1: &V,
) -> bool {
    &&& visit_states(rs, fs, items.len(), s0, s1)
    &&& forall|i: int| 0 <= i < items.len() ==> called(#[trigger] rs[i], items[i])
}

/// The `n` calls `rs` chain the visitor's states: the first starts from
/// `s0`, each next one from the visitor `fs` says the previous one left,
/// and the last leaves `s1` (`s1 == s0` when there are none).
pub open spec fn visit_states<'a, V: ?Sized>(rs: Seq<&'a mut V>, fs: Seq<&V>, n: nat, s0: &V, s1: &V) -> bool {
    &&& rs.len() == n && fs.len() == n
    &&& forall|i: int| 0 <= i < n ==> &*#[trigger] rs[i] == (if i == 0 { s0 } else { fs[i - 1] })
    &&& s1 == (if n == 0 { s0 } else { fs[n - 1] })
}

proof fn lemma_visit_steps_push<'a, V: ?Sized, A>(
    called: spec_fn(&'a mut V, A) -> bool,
    rs: Seq<&'a mut V>,
    fs: Seq<&V>,
    items: Seq<A>,
    s0: &V,
    s1: &V,
    r: &'a mut V,
    item: A,
    s2: &V,
)
    requires
        visit_steps(called, rs, fs, items, s0, s1),
        &*r == s1,
        called(r, item),
    ensures
        visit_steps(called, rs.push(r), fs.push(s2), items.push(item), s0, s2),
{
}

pub open spec fn script_visits(s: Option<ScriptBlock>) -> Seq<Visit> {
    match s {
        Some(b) => seq![Visit::Script(b)],
        None => Seq::empty(),
    }
}

pub open spec fn style_visits(s: Seq<StyleBlock>) -> Seq<Visit> {
    s.map_values(|x: StyleBlock| Visit::Style(x))
}

pub open spec fn fragment_visits(s: Seq<TemplateFragment>) -> Seq<Visit> {
    s.map_values(|x: TemplateFragment| Visit::Fragment(x))
}

pub open spec fn template_node_visits(s: Seq<TemplateNode>) -> Seq<Visit> {
    s.map_values(|x: TemplateNode| Visit::TemplateNode(x))
}

pub open spec fn html_node_visits(s: Seq<HtmlNode>) -> Seq<Visit> {
    s.map_values(|x: HtmlNode| Visit::HtmlNode(x))
}

pub open spec fn if_branch_visits(s: Seq<IfBranch>) -> Seq<Visit> {
    s.map_values(|x: IfBranch| Visit::IfBranch(x))
}

pub open spec fn attribute_visits(s: Seq<Attribute>) -> Seq<Visit> {
    s.map_values(|x: Attribute| Visit::Attribute(x))
}

pub open spec fn directive_visits(s: Seq<Directive>) -> Seq<Visit> {
    s.map_values(|x: Directive| Visit::Directive(x))
}

/// The visits of the top-level AST: the `<script setup>` block, the
/// `<script>` block, each style, then each template fragment.
pub open spec fn ast_visits(ast: ThebeAst) -> Seq<Visit> {
    script_visits(ast.script_setup) + script_visits(ast.script) + style_visits(ast.styles@)
        + fragment_visits(ast.template@)
}

/// The visits of an element: each attribute, each directive, then each child.
pub open spec fn element_visits(el: Element) -> Seq<Visit> {
    attribute_visits(el.attributes@) + directive_visits(el.directives@) + html_node_visits(
        el.children@,
    )
}

/// The one visit of an element as a whole.
pub open spec fn single_element_visit(el: Element) -> Seq<Visit> {
    seq![Visit::Element(el)]
}

/// The visits of an HTML node: an element or component is visited as an
/// element; an `{#if}` visits its branches; `{#each}`, `<slot>` and
/// `<thebe:head>` visit their children; other nodes are leaves.
pub open spec fn node_visits(node: HtmlNode) -> Seq<Visit> {
    match node {
        HtmlNode::Element(el) => single_element_visit(el),
        HtmlNode::Component(el) => single_element_visit(el),
        HtmlNode::If { branches, .. } => if_branch_visits(branches@),
        HtmlNode::Each { children, .. } => html_node_visits(children@),
        HtmlNode::Slot { children, .. } => html_node_visits(children@),
        HtmlNode::Head { children, .. } => html_node_visits(children@),
        _ => Seq::empty(),
    }
}

/// A read-only visitor for the AST.
///
/// Every method has a default implementation that either recurses into
/// child nodes (via the corresponding `walk_*` function) or does nothing
/// for leaf nodes.
pub trait Visitor {
    /// Visit the top-level AST. Default: [`walk_ast`].
    fn visit_ast(&mut self, ast: &ThebeAst)
        default_ensures
            exists|rs: Seq<&mut Self>, fs: Seq<&Self>|
                (forall|k: int| 0 <= k < rs.len() ==> &*final(#[trigger] rs[k]) == fs[k])
                && visit_steps(
                    (|r: &mut Self, x: Visit| match x {
                        Visit::Script(b) => call_ensures(Self::visit_script, (r, &b), ()),
                        Visit::Style(b) => call_ensures(Self::visit_style, (r, &b), ()),
                        Visit::Fragment(f) => call_ensures(Self::visit_template_fragment, (r, &f), ()),
                        _ => false,
                    }), rs, fs, ast_visits(*ast), &*old(self), &*final(self)) && #[trigger] visit_states(rs, fs, (ast_visits(*ast)).len(), &*old(self), &*final(self)),
    {
        proof {
            assert(visit_steps((|r: &mut Self, x: Visit| match x {
                        Visit::Script(b) => call_ensures(Self::visit_script, (r, &b), ()),
                        Visit::Style(b) => call_ensures(Self::visit_style, (r, &b), ()),
                        Visit::Fragment(f) => call_ensures(Self::visit_template_fragment, (r, &f), ()),
                        _ => false,
                    }), Seq::<&mut Self>::empty(), Seq::<&Self>::empty(), Seq::<Visit>::empty(), &*old(self), &*self));
        }
        if let Some(script) = &ast.script_setup {
            proof {
                assert(Seq::<Visit>::empty() + script_visits(ast.script_setup) =~= Seq::<Visit>::empty().push(Visit::Script(*script)));
            }
            let ghost before: &Self = &*self;
            self.visit_script(script);
            assert(exists|rs: Seq<&mut Self>, fs: Seq<&Self>|
                    (forall|k: int| 0 <= k < rs.len() ==> &*final(#[trigger] rs[k]) == fs[k])
                    && visit_steps(
                    (|r: &mut Self, x: Visit| match x {
                        Visit::Script(b) => call_ensures(Self::visit_script, (r, &b), ()),
                        Visit::Style(b) => call_ensures(Self::visit_style, (r, &b), ()),
                        Visit::Fragment(f) => call_ensures(Self::visit_template_fragment, (r, &f), ()),
                        _ => false,
                    }), rs, fs, Seq::<Visit>::empty().push(Visit::Script(*script)), &*old(self), &*self) && #[trigger] visit_states(rs, fs, (Seq::<Visit>::empty().push(Visit::Script(*script))).len(), &*old(self), &*self)) by {
                let (rs0, fs0) = choose|rs: Seq<&mut Self>, fs: Seq<&Self>|
                    (forall|k: int| 0 <= k < rs.len() ==> &*final(#[trigger] rs[k]) == fs[k])
                    && visit_steps(
                    (|r: &mut Self, x: Visit| match x {
                        Visit::Script(b) => call_ensures(Self::visit_script, (r, &b), ()),
                        Visit::Style(b) => call_ensures(Self::visit_style, (r, &b), ()),
                        Visit::Fragment(f) => call_ensures(Self::visit_template_fragment, (r, &f), ()),
                        _ => false,
                    }), rs, fs, Seq::<Visit>::empty(), &*old(self), before) && #[trigger] visit_states(rs, fs, (Seq::<Visit>::empty()).len(), &*old(self), before);
                let r = choose|r: &mut Self| &*r == before && &*final(r) == &*self && call_ensures(Self::visit_script, (r, &*script), ());
                lemma_visit_steps_push((|r: &mut Self, x: Visit| match x {
                        Visit::Script(b) => call_ensures(Self::visit_script, (r, &b), ()),
                        Visit::Style(b) => call_ensures(Self::visit_style, (r, &b), ()),
                        Visit::Fragment(f) => call_ensures(Self::visit_template_fragment, (r, &f), ()),
                        _ => false,
                    }), rs0, fs0, Seq::<Visit>::empty(), &*old(self), before, r, Visit::Script(*script), &*self);
                assert(forall|k: int| 0 <= k < rs0.push(r).len() ==> &*final(#[trigger] rs0.push(r)[k]) == fs0.push(&*self)[k]);
            }
        } else {
            proof {
                assert(Seq::<Visit>::empty() + script_visits(ast.script_setup) =~= Seq::<Visit>::empty());
            }
        }
        proof {
            assert(Seq::<Visit>::empty() + script_visits(ast.script_setup) =~= script_visits(ast.script_setup));
        }
        if let Some(script) = &ast.script {
            proof {
                assert(script_visits(ast.script_setup) + script_visits(ast.script) =~= script_visits(ast.script_setup).push(Visit::Script(*script)));
            }
            let ghost before: &Self = &*self;
            self.visit_script(script);
            assert(exists|rs: Seq<&mut Self>, fs: Seq<&Self>|
                    (forall|k: int| 0 <= k < rs.len() ==> &*final(#[trigger] rs[k]) == fs[k])
                    && visit_steps(
                    (|r: &mut Self, x: Visit| match x {
                        Visit::Script(b) => call_ensures(Self::visit_script, (r, &b), ()),
                        Visit::Style(b) => call_ensures(Self::visit_style, (r, &b), ()),
                        Visit::Fragment(f) => call_ensures(Self::visit_template_fragment, (r, &f), ()),
                        _ => false,
                    }), rs, fs, script_visits(ast.script_setup).push(Visit::Script(*script)), &*old(self), &*self) && #[trigger] visit_states(rs, fs, (script_visits(ast.script_setup).push(Visit::Script(*script))).len(), &*old(self), &*self)) by {
                let (rs0, fs0) = choose|rs: Seq<&mut Self>, fs: Seq<&Self>|
                    (forall|k: int| 0 <= k < rs.len() ==> &*final(#[trigger] rs[k]) == fs[k])
                    && visit_steps(
                    (|r: &mut Self, x: Visit| match x {
                        Visit::Script(b) => call_ensures(Self::visit_script, (r, &b), ()),
                        Visit::Style(b) => call_ensures(Self::visit_style, (r, &b), ()),
                        Visit::Fragment(f) => call_ensures(Self::visit_template_fragment, (r, &f), ()),
                        _ => false,
                    }), rs, fs, script_visits(ast.script_setup), &*old(self), before) && #[trigger] visit_states(rs, fs, (script_visits(ast.script_setup)).len(), &*old(self), before);
                let r = choose|r: &mut Self| &*r == before && &*final(r) == &*self && call_ensures(Self::visit_script, (r, &*script), ());
                lemma_visit_steps_push((|r: &mut Self, x: Visit| match x {
                        Visit::Script(b) => call_ensures(Self::visit_script, (r, &b), ()),
                        Visit::Style(b) => call_ensures(Self::visit_style, (r, &b), ()),
                        Visit::Fragment(f) => call_ensures(Self::visit_template_fragment, (r, &f), ()),
                        _ => false,
                    }), rs0, fs0, script_visits(ast.script_setup), &*old(self), before, r, Visit::Script(*script), &*self);
                assert(forall|k: int| 0 <= k < rs0.push(r).len() ==> &*final(#[trigger] rs0.push(r)[k]) == fs0.push(&*self)[k]);
            }
        } else {
            proof {
                assert(script_visits(ast.script_setup) + script_visits(ast.script) =~= script_visits(ast.script_setup));
            }
        }
        let mut i: usize = 0;
        proof {
            assert((script_visits(ast.script_setup) + script_visits(ast.script)) + style_visits(ast.styles@.take(0)) =~= (script_visits(ast.script_setup) + script_visits(ast.script)));
        }
        while i < ast.styles.len()
            invariant
                i <= ast.styles@.len(),
                exists|rs: Seq<&mut Self>, fs: Seq<&Self>|
                    (forall|k: int| 0 <= k < rs.len() ==> &*final(#[trigger] rs[k]) == fs[k])
                    && visit_steps(
                    (|r: &mut Self, x: Visit| match x {
                        Visit::Script(b) => call_ensures(Self::visit_script, (r, &b), ()),
                        Visit::Style(b) => call_ensures(Self::visit_style, (r, &b), ()),
                        Visit::Fragment(f) => call_ensures(Self::visit_template_fragment, (r, &f), ()),
                        _ => false,
                    }), rs, fs, (script_visits(ast.script_setup) + script_visits(ast.script)) + style_visits(ast.styles@.take(i as int)), &*old(self), &*self) && #[trigger] visit_states(rs, fs, ((script_visits(ast.script_setup) + script_visits(ast.script)) + style_visits(ast.styles@.take(i as int))).len(), &*old(self), &*self),
            decreases ast.styles@.len() - i,
        {
            proof {
                assert((script_visits(ast.script_setup) + script_visits(ast.script)) + style_visits(ast.styles@.take(i + 1)) =~= ((script_visits(ast.script_setup) + script_visits(ast.script)) + style_visits(ast.styles@.take(i as int))).push(Visit::Style(ast.styles@[i as int])));
            }
            let ghost before: &Self = &*self;
            self.visit_style(&ast.styles[i]);
            assert(exists|rs: Seq<&mut Self>, fs: Seq<&Self>|
                    (forall|k: int| 0 <= k < rs.len() ==> &*final(#[trigger] rs[k]) == fs[k])
                    && visit_steps(
                    (|r: &mut Self, x: Visit| match x {
                        Visit::Script(b) => call_ensures(Self::visit_script, (r, &b), ()),
                        Visit::Style(b) => call_ensures(Self::visit_style, (r, &b), ()),
                        Visit::Fragment(f) => call_ensures(Self::visit_template_fragment, (r, &f), ()),
                        _ => false,
                    }), rs, fs, ((script_visits(ast.script_setup) + script_visits(ast.script)) + style_visits(ast.styles@.take(i as int))).push(Visit::Style(ast.styles@[i as int])), &*old(self), &*self) && #[trigger] visit_states(rs, fs, (((script_visits(ast.script_setup) + script_visits(ast.script)) + style_visits(ast.styles@.take(i as int))).push(Visit::Style(ast.styles@[i as int]))).len(), &*old(self), &*self)) by {
                let (rs0, fs0) = choose|rs: Seq<&mut Self>, fs: Seq<&Self>|
                    (forall|k: int| 0 <= k < rs.len() ==> &*final(#[trigger] rs[k]) == fs[k])
                    && visit_steps(
                    (|r: &mut Self, x: Visit| match x {
                        Visit::Script(b) => call_ensures(Self::visit_script, (r, &b), ()),
                        Visit::Style(b) => call_ensures(Self::visit_style, (r, &b), ()),
                        Visit::Fragment(f) => call_ensures(Self::visit_template_fragment, (r, &f), ()),
                        _ => false,
                    }), rs, fs, ((script_visits(ast.script_setup) + script_visits(ast.script)) + style_visits(ast.styles@.take(i as int))), &*old(self), before) && #[trigger] visit_states(rs, fs, (((script_visits(ast.script_setup) + script_visits(ast.script)) + style_visits(ast.styles@.take(i as int)))).len(), &*old(self), before);
                let r = choose|r: &mut Self| &*r == before && &*final(r) == &*self && call_ensures(Self::visit_style, (r, &ast.styles@[i as int]), ());
                lemma_visit_steps_push((|r: &mut Self, x: Visit| match x {
                        Visit::Script(b) => call_ensures(Self::visit_script, (r, &b), ()),
                        Visit::Style(b) => call_ensures(Self::visit_style, (r, &b), ()),
                        Visit::Fragment(f) => call_ensures(Self::visit_template_fragment, (r, &f), ()),
                        _ => false,
                    }), rs0, fs0, ((script_visits(ast.script_setup) + script_visits(ast.script)) + style_visits(ast.styles@.take(i as int))), &*old(self), before, r, Visit::Style(ast.styles@[i as int]), &*self);
                assert(forall|k: int| 0 <= k < rs0.push(r).len() ==> &*final(#[trigger] rs0.push(r)[k]) == fs0.push(&*self)[k]);
            }
            i = i + 1;
        }
        proof {
            assert(ast.styles@.take(i as int) =~= ast.styles@);
        }
        let mut j: usize = 0;
        proof {
            assert(((script_visits(ast.script_setup) + script_visits(ast.script)) + style_visits(ast.styles@)) + fragment_visits(ast.template@.take(0)) =~= ((script_visits(ast.script_setup) + script_visits(ast.script)) + style_visits(ast.styles@)));
        }
        while j < ast.template.len()
            invariant
                j <= ast.template@.len(),
                exists|rs: Seq<&mut Self>, fs: Seq<&Self>|
                    (forall|k: int| 0 <= k < rs.len() ==> &*final(#[trigger] rs[k]) == fs[k])
                    && visit_steps(
                    (|r: &mut Self, x: Visit| match x {
                        Visit::Script(b) => call_ensures(Self::visit_script, (r, &b), ()),
                        Visit::Style(b) => call_ensures(Self::visit_style, (r, &b), ()),
                        Visit::Fragment(f) => call_ensures(Self::visit_template_fragment, (r, &f), ()),
                        _ => false,
                    }), rs, fs, ((script_visits(ast.script_setup) + script_visits(ast.script)) + style_visits(ast.styles@)) + fragment_visits(ast.template@.take(j as int)), &*old(self), &*self) && #[trigger] visit_states(rs, fs, (((script_visits(ast.script_setup) + script_visits(ast.script)) + style_visits(ast.styles@)) + fragment_visits(ast.template@.take(j as int))).len(), &*old(self), &*self),
            decreases ast.template@.len() - j,
        {
            proof {
                assert(((script_visits(ast.script_setup) + script_visits(ast.script)) + style_visits(ast.styles@)) + fragment_visits(ast.template@.take(j + 1)) =~= (((script_visits(ast.script_setup) + script_visits(ast.script)) + style_visits(ast.styles@)) + fragment_visits(ast.template@.take(j as int))).push(Visit::Fragment(ast.template@[j as int])));
            }
            let ghost before: &Self = &*self;
            self.visit_template_fragment(&ast.template[j]);
            assert(exists|rs: Seq<&mut Self>, fs: Seq<&Self>|
                    (forall|k: int| 0 <= k < rs.len() ==> &*final(#[trigger] rs[k]) == fs[k])
                    && visit_steps(
                    (|r: &mut Self, x: Visit| match x {
                        Visit::Script(b) => call_ensures(Self::visit_script, (r, &b), ()),
                        Visit::Style(b) => call_ensures(Self::visit_style, (r, &b), ()),
                        Visit::Fragment(f) => call_ensures(Self::visit_template_fragment, (r, &f), ()),
                        _ => false,
                    }), rs, fs, (((script_visits(ast.script_setup) + script_visits(ast.script)) + style_visits(ast.styles@)) + fragment_visits(ast.template@.take(j as int))).push(Visit::Fragment(ast.template@[j as int])), &*old(self), &*self) && #[trigger] visit_states(rs, fs, ((((script_visits(ast.script_setup) + script_visits(ast.script)) + style_visits(ast.styles@)) + fragment_visits(ast.template@.take(j as int))).push(Visit::Fragment(ast.template@[j as int]))).len(), &*old(self), &*self)) by {
                let (rs0, fs0) = choose|rs: Seq<&mut Self>, fs: Seq<&Self>|
                    (forall|k: int| 0 <= k < rs.len() ==> &*final(#[trigger] rs[k]) == fs[k])
                    && visit_steps(
                    (|r: &mut Self, x: Visit| match x {
                        Visit::Script(b) => call_ensures(Self::visit_script, (r, &b), ()),
                        Visit::Style(b) => call_ensures(Self::visit_style, (r, &b), ()),
                        Visit::Fragment(f) => call_ensures(Self::visit_template_fragment, (r, &f), ()),
                        _ => false,
                    }), rs, fs, (((script_visits(ast.script_setup) + script_visits(ast.script)) + style_visits(ast.styles@)) + fragment_visits(ast.template@.take(j as int))), &*old(self), before) && #[trigger] visit_states(rs, fs, ((((script_visits(ast.script_setup) + script_visits(ast.script)) + style_visits(ast.styles@)) + fragment_visits(ast.template@.take(j as int)))).len(), &*old(self), before);
                let r = choose|r: &mut Self| &*r == before && &*final(r) == &*self && call_ensures(Self::visit_template_fragment, (r, &ast.template@[j as int]), ());
                lemma_visit_steps_push((|r: &mut Self, x: Visit| match x {
                        Visit::Script(b) => call_ensures(Self::visit_script, (r, &b), ()),
                        Visit::Style(b) => call_ensures(Self::visit_style, (r, &b), ()),
                        Visit::Fragment(f) => call_ensures(Self::visit_template_fragment, (r, &f), ()),
                        _ => false,
                    }), rs0, fs0, (((script_visits(ast.script_setup) + script_visits(ast.script)) + style_visits(ast.styles@)) + fragment_visits(ast.template@.take(j as int))), &*old(self), before, r, Visit::Fragment(ast.template@[j as int]), &*self);
                assert(forall|k: int| 0 <= k < rs0.push(r).len() ==> &*final(#[trigger] rs0.push(r)[k]) == fs0.push(&*self)[k]);
            }
            j = j + 1;
        }
        proof {
            assert(ast.template@.take(j as int) =~= ast.template@);
        }
        proof {
            assert(((script_visits(ast.script_setup) + script_visits(ast.script)) + style_visits(ast.styles@)) + fragment_visits(ast.template@) =~= ast_visits(*ast));
        }
    }

    /// Visit a `<script>` or `<script setup>` block. Leaf.
    fn visit_script(&mut self, script: &ScriptBlock) {
    }

    /// Visit a `<style>` block. Leaf.
    fn visit_style(&mut self, style: &StyleBlock) {
    }

    /// Visit a parsed template fragment. Default: [`walk_template_fragment`].
    fn visit_template_fragment(&mut self, frag: &TemplateFragment)
        default_ensures
            exists|rs: Seq<&mut Self>, fs: Seq<&Self>|
                (forall|k: int| 0 <= k < rs.len() ==> &*final(#[trigger] rs[k]) == fs[k])
                && visit_steps(
                    (|r: &mut Self, x: Visit| match x {
                        Visit::TemplateNode(n) => call_ensures(Self::visit_template_node, (r, &n), ()),
                        _ => false,
                    }), rs, fs, template_node_visits(frag.nodes@), &*old(self), &*final(self)) && #[trigger] visit_states(rs, fs, (template_node_visits(frag.nodes@)).len(), &*old(self), &*final(self)),
    {
        proof {
            assert(visit_steps((|r: &mut Self, x: Visit| match x {
                        Visit::TemplateNode(n) => call_ensures(Self::visit_template_node, (r, &n), ()),
                        _ => false,
                    }), Seq::<&mut Self>::empty(), Seq::<&Self>::empty(), Seq::<Visit>::empty(), &*old(self), &*self));
        }
        let mut i: usize = 0;
        proof {
            assert(Seq::<Visit>::empty() + template_node_visits(frag.nodes@.take(0)) =~= Seq::<Visit>::empty());
        }
        while i < frag.nodes.len()
            invariant
                i <= frag.nodes@.len(),
                exists|rs: Seq<&mut Self>, fs: Seq<&Self>|
                    (forall|k: int| 0 <= k < rs.len() ==> &*final(#[trigger] rs[k]) == fs[k])
                    && visit_steps(
                    (|r: &mut Self, x: Visit| match x {
                        Visit::TemplateNode(n) => call_ensures(Self::visit_template_node, (r, &n), ()),
                        _ => false,
                    }), rs, fs, Seq::<Visit>::empty() + template_node_visits(frag.nodes@.take(i as int)), &*old(self), &*self) && #[trigger] visit_states(rs, fs, (Seq::<Visit>::empty() + template_node_visits(frag.nodes@.take(i as int))).len(), &*old(self), &*self),
            decreases frag.nodes@.len() - i,
        {
            proof {
                assert(Seq::<Visit>::empty() + template_node_visits(frag.nodes@.take(i + 1)) =~= (Seq::<Visit>::empty() + template_node_visits(frag.nodes@.take(i as int))).push(Visit::TemplateNode(frag.nodes@[i as int])));
            }
            let ghost before: &Self = &*self;
            self.visit_template_node(&frag.nodes[i]);
            assert(exists|rs: Seq<&mut Self>, fs: Seq<&Self>|
                    (forall|k: int| 0 <= k < rs.len() ==> &*final(#[trigger] rs[k]) == fs[k])
                    && visit_steps(
                    (|r: &mut Self, x: Visit| match x {
                        Visit::TemplateNode(n) => call_ensures(Self::visit_template_node, (r, &n), ()),
                        _ => false,
                    }), rs, fs, (Seq::<Visit>::empty() + template_node_visits(frag.nodes@.take(i as int))).push(Visit::TemplateNode(frag.nodes@[i as int])), &*old(self), &*self) && #[trigger] visit_states(rs, fs, ((Seq::<Visit>::empty() + template_node_visits(frag.nodes@.take(i as int))).push(Visit::TemplateNode(frag.nodes@[i as int]))).len(), &*old(self), &*self)) by {
                let (rs0, fs0) = choose|rs: Seq<&mut Self>, fs: Seq<&Self>|
                    (forall|k: int| 0 <= k < rs.len() ==> &*final(#[trigger] rs[k]) == fs[k])
                    && visit_steps(
                    (|r: &mut Self, x: Visit| match x {
                        Visit::TemplateNode(n) => call_ensures(Self::visit_template_node, (r, &n), ()),
                        _ => false,
                    }), rs, fs, (Seq::<Visit>::empty() + template_node_visits(frag.nodes@.take(i as int))), &*old(self), before) && #[trigger] visit_states(rs, fs, ((Seq::<Visit>::empty() + template_node_visits(frag.nodes@.take(i as int)))).len(), &*old(self), before);
                let r = choose|r: &mut Self| &*r == before && &*final(r) == &*self && call_ensures(Self::visit_template_node, (r, &frag.nodes@[i as int]), ());
                lemma_visit_steps_push((|r: &mut Self, x: Visit| match x {
                        Visit::TemplateNode(n) => call_ensures(Self::visit_template_node, (r, &n), ()),
                        _ => false,
                    }), rs0, fs0, (Seq::<Visit>::empty() + template_node_visits(frag.nodes@.take(i as int))), &*old(self), before, r, Visit::TemplateNode(frag.nodes@[i as int]), &*self);
                assert(forall|k: int| 0 <= k < rs0.push(r).len() ==> &*final(#[trigger] rs0.push(r)[k]) == fs0.push(&*self)[k]);
            }
            i = i + 1;
        }
        proof {
            assert(frag.nodes@.take(i as int) =~= frag.nodes@);
        }
        proof {
            assert(Seq::<Visit>::empty() + template_node_visits(frag.nodes@) =~= template_node_visits(frag.nodes@));
        }
    }

    /// Visit a single template node (text or `{{ expr }}`). Leaf.
    fn visit_template_node(&mut self, node: &TemplateNode) {
    }

    /// Visit an HTML node. Default: [`walk_html_node`].
    ///
    /// The defaults of this method, `visit_element` and `visit_if_branch`
    /// call one another through the trait (an element's children are
    /// visited with `visit_html_node`, which visits an element with
    /// `visit_element`). Verus refuses recursion among a trait's default
    /// methods ("trait default methods do not yet support recursion and
    /// decreases"; without `decreases`, "cyclic self-reference"), so this
    /// one default is hidden from it (`external_body`), which breaks the
    /// cycle; it states nothing. The other two defaults are verified and do
    /// what [`walk_element`] and [`walk_if_branch`] do (a default that calls
    /// a free function which calls back through the trait is refused as
    /// cyclic as well, so their loops are written out).
    #[verifier::external_body]
    fn visit_html_node(&mut self, node: &HtmlNode) {
        walk_html_node(self, node);
    }

    /// Visit an element (both `Element` and `Component` variants). Default:
    /// as [`walk_element`].
    fn visit_element(&mut self, el: &Element)
        default_ensures
            exists|rs: Seq<&mut Self>, fs: Seq<&Self>|
                (forall|k: int| 0 <= k < rs.len() ==> &*final(#[trigger] rs[k]) == fs[k])
                && visit_steps(
                    (|r: &mut Self, x: Visit| match x {
                        Visit::Attribute(a) => call_ensures(Self::visit_attribute, (r, &a), ()),
                        Visit::Directive(d) => call_ensures(Self::visit_directive, (r, &d), ()),
                        Visit::HtmlNode(n) => call_ensures(Self::visit_html_node, (r, &n), ()),
                        _ => false,
                    }), rs, fs, element_visits(*el), &*old(self), &*final(self)) && #[trigger] visit_states(rs, fs, (element_visits(*el)).len(), &*old(self), &*final(self)),
    {
        proof {
            assert(visit_steps((|r: &mut Self, x: Visit| match x {
                        Visit::Attribute(a) => call_ensures(Self::visit_attribute, (r, &a), ()),
                        Visit::Directive(d) => call_ensures(Self::visit_directive, (r, &d), ()),
                        Visit::HtmlNode(n) => call_ensures(Self::visit_html_node, (r, &n), ()),
                        _ => false,
                    }), Seq::<&mut Self>::empty(), Seq::<&Self>::empty(), Seq::<Visit>::empty(), &*old(self), &*self));
        }
        let mut i: usize = 0;
        proof {
            assert(Seq::<Visit>::empty() + attribute_visits(el.attributes@.take(0)) =~= Seq::<Visit>::empty());
        }
        while i < el.attributes.len()
            invariant
                i <= el.attributes@.len(),
                exists|rs: Seq<&mut Self>, fs: Seq<&Self>|
                    (forall|k: int| 0 <= k < rs.len() ==> &*final(#[trigger] rs[k]) == fs[k])
                    && visit_steps(
                    (|r: &mut Self, x: Visit| match x {
                        Visit::Attribute(a) => call_ensures(Self::visit_attribute, (r, &a), ()),
                        Visit::Directive(d) => call_ensures(Self::visit_directive, (r, &d), ()),
                        Visit::HtmlNode(n) => call_ensures(Self::visit_html_node, (r, &n), ()),
                        _ => false,
                    }), rs, fs, Seq::<Visit>::empty() + attribute_visits(el.attributes@.take(i as int)), &*old(self), &*self) && #[trigger] visit_states(rs, fs, (Seq::<Visit>::empty() + attribute_visits(el.attributes@.take(i as int))).len(), &*old(self), &*self),
            decreases el.attributes@.len() - i,
        {
            proof {
                assert(Seq::<Visit>::empty() + attribute_visits(el.attributes@.take(i + 1)) =~= (Seq::<Visit>::empty() + attribute_visits(el.attributes@.take(i as int))).push(Visit::Attribute(el.attributes@[i as int])));
            }
            let ghost before: &Self = &*self;
            self.visit_attribute(&el.attributes[i]);
            assert(exists|rs: Seq<&mut Self>, fs: Seq<&Self>|
                    (forall|k: int| 0 <= k < rs.len() ==> &*final(#[trigger] rs[k]) == fs[k])
                    && visit_steps(
                    (|r: &mut Self, x: Visit| match x {
                        Visit::Attribute(a) => call_ensures(Self::visit_attribute, (r, &a), ()),
                        Visit::Directive(d) => call_ensures(Self::visit_directive, (r, &d), ()),
                        Visit::HtmlNode(n) => call_ensures(Self::visit_html_node, (r, &n), ()),
                        _ => false,
                    }), rs, fs, (Seq::<Visit>::empty() + attribute_visits(el.attributes@.take(i as int))).push(Visit::Attribute(el.attributes@[i as int])), &*old(self), &*self) && #[trigger] visit_states(rs, fs, ((Seq::<Visit>::empty() + attribute_visits(el.attributes@.take(i as int))).push(Visit::Attribute(el.attributes@[i as int]))).len(), &*old(self), &*self)) by {
                let (rs0, fs0) = choose|rs: Seq<&mut Self>, fs: Seq<&Self>|
                    (forall|k: int| 0 <= k < rs.len() ==> &*final(#[trigger] rs[k]) == fs[k])
                    && visit_steps(
                    (|r: &mut Self, x: Visit| match x {
                        Visit::Attribute(a) => call_ensures(Self::visit_attribute, (r, &a), ()),
                        Visit::Directive(d) => call_ensures(Self::visit_directive, (r, &d), ()),
                        Visit::HtmlNode(n) => call_ensures(Self::visit_html_node, (r, &n), ()),
                        _ => false,
                    }), rs, fs, (Seq::<Visit>::empty() + attribute_visits(el.attributes@.take(i as int))), &*old(self), before) && #[trigger] visit_states(rs, fs, ((Seq::<Visit>::empty() + attribute_visits(el.attributes@.take(i as int)))).len(), &*old(self), before);
                let r = choose|r: &mut Self| &*r == before && &*final(r) == &*self && call_ensures(Self::visit_attribute, (r, &el.attributes@[i as int]), ());
                lemma_visit_steps_push((|r: &mut Self, x: Visit| match x {
                        Visit::Attribute(a) => call_ensures(Self::visit_attribute, (r, &a), ()),
                        Visit::Directive(d) => call_ensures(Self::visit_directive, (r, &d), ()),
                        Visit::HtmlNode(n) => call_ensures(Self::visit_html_node, (r, &n), ()),
                        _ => false,
                    }), rs0, fs0, (Seq::<Visit>::empty() + attribute_visits(el.attributes@.take(i as int))), &*old(self), before, r, Visit::Attribute(el.attributes@[i as int]), &*self);
                assert(forall|k: int| 0 <= k < rs0.push(r).len() ==> &*final(#[trigger] rs0.push(r)[k]) == fs0.push(&*self)[k]);
            }
            i = i + 1;
        }
        proof {
            assert(el.attributes@.take(i as int) =~= el.attributes@);
        }
        let mut j: usize = 0;
        proof {
            assert((Seq::<Visit>::empty() + attribute_visits(el.attributes@)) + directive_visits(el.directives@.take(0)) =~= (Seq::<Visit>::empty() + attribute_visits(el.attributes@)));
        }
        while j < el.directives.len()
            invariant
                j <= el.directives@.len(),
                exists|rs: Seq<&mut Self>, fs: Seq<&Self>|
                    (forall|k: int| 0 <= k < rs.len() ==> &*final(#[trigger] rs[k]) == fs[k])
                    && visit_steps(
                    (|r: &mut Self, x: Visit| match x {
                        Visit::Attribute(a) => call_ensures(Self::visit_attribute, (r, &a), ()),
                        Visit::Directive(d) => call_ensures(Self::visit_directive, (r, &d), ()),
                        Visit::HtmlNode(n) => call_ensures(Self::visit_html_node, (r, &n), ()),
                        _ => false,
                    }), rs, fs, (Seq::<Visit>::empty() + attribute_visits(el.attributes@)) + directive_visits(el.directives@.take(j as int)), &*old(self), &*self) && #[trigger] visit_states(rs, fs, ((Seq::<Visit>::empty() + attribute_visits(el.attributes@)) + directive_visits(el.directives@.take(j as int))).len(), &*old(self), &*self),
            decreases el.directives@.len() - j,
        {
            proof {
                assert((Seq::<Visit>::empty() + attribute_visits(el.attributes@)) + directive_visits(el.directives@.take(j + 1)) =~= ((Seq::<Visit>::empty() + attribute_visits(el.attributes@)) + directive_visits(el.directives@.take(j as int))).push(Visit::Directive(el.directives@[j as int])));
            }
            let ghost before: &Self = &*self;
            self.visit_directive(&el.directives[j]);
            assert(exists|rs: Seq<&mut Self>, fs: Seq<&Self>|
                    (forall|k: int| 0 <= k < rs.len() ==> &*final(#[trigger] rs[k]) == fs[k])
                    && visit_steps(
                    (|r: &mut Self, x: Visit| match x {
                        Visit::Attribute(a) => call_ensures(Self::visit_attribute, (r, &a), ()),
                        Visit::Directive(d) => call_ensures(Self::visit_directive, (r, &d), ()),
                        Visit::HtmlNode(n) => call_ensures(Self::visit_html_node, (r, &n), ()),
                        _ => false,
                    }), rs, fs, ((Seq::<Visit>::empty() + attribute_visits(el.attributes@)) + directive_visits(el.directives@.take(j as int))).push(Visit::Directive(el.directives@[j as int])), &*old(self), &*self) && #[trigger] visit_states(rs, fs, (((Seq::<Visit>::empty() + attribute_visits(el.attributes@)) + directive_visits(el.directives@.take(j as int))).push(Visit::Directive(el.directives@[j as int]))).len(), &*old(self), &*self)) by {
                let (rs0, fs0) = choose|rs: Seq<&mut Self>, fs: Seq<&Self>|
                    (forall|k: int| 0 <= k < rs.len() ==> &*final(#[trigger] rs[k]) == fs[k])
                    && visit_steps(
                    (|r: &mut Self, x: Visit| match x {
                        Visit::Attribute(a) => call_ensures(Self::visit_attribute, (r, &a), ()),
                        Visit::Directive(d) => call_ensures(Self::visit_directive, (r, &d), ()),
                        Visit::HtmlNode(n) => call_ensures(Self::visit_html_node, (r, &n), ()),
                        _ => false,
                    }), rs, fs, ((Seq::<Visit>::empty() + attribute_visits(el.attributes@)) + directive_visits(el.directives@.take(j as int))), &*old(self), before) && #[trigger] visit_states(rs, fs, (((Seq::<Visit>::empty() + attribute_visits(el.attributes@)) + directive_visits(el.directives@.take(j as int)))).len(), &*old(self), before);
                let r = choose|r: &mut Self| &*r == before && &*final(r) == &*self && call_ensures(Self::visit_directive, (r, &el.directives@[j as int]), ());
                lemma_visit_steps_push((|r: &mut Self, x: Visit| match x {
                        Visit::Attribute(a) => call_ensures(Self::visit_attribute, (r, &a), ()),
                        Visit::Directive(d) => call_ensures(Self::visit_directive, (r, &d), ()),
                        Visit::HtmlNode(n) => call_ensures(Self::visit_html_node, (r, &n), ()),
                        _ => false,
                    }), rs0, fs0, ((Seq::<Visit>::empty() + attribute_visits(el.attributes@)) + directive_visits(el.directives@.take(j as int))), &*old(self), before, r, Visit::Directive(el.directives@[j as int]), &*self);
                assert(forall|k: int| 0 <= k < rs0.push(r).len() ==> &*final(#[trigger] rs0.push(r)[k]) == fs0.push(&*self)[k]);
            }
            j = j + 1;
        }
        proof {
            assert(el.directives@.take(j as int) =~= el.directives@);
        }
        let mut k: usize = 0;
        proof {
            assert(((Seq::<Visit>::empty() + attribute_visits(el.attributes@)) + directive_visits(el.directives@)) + html_node_visits(el.children@.take(0)) =~= ((Seq::<Visit>::empty() + attribute_visits(el.attributes@)) + directive_visits(el.directives@)));
        }
        while k < el.children.len()
            invariant
                k <= el.children@.len(),
                exists|rs: Seq<&mut Self>, fs: Seq<&Self>|
                    (forall|k: int| 0 <= k < rs.len() ==> &*final(#[trigger] rs[k]) == fs[k])
                    && visit_steps(
                    (|r: &mut Self, x: Visit| match x {
                        Visit::Attribute(a) => call_ensures(Self::visit_attribute, (r, &a), ()),
                        Visit::Directive(d) => call_ensures(Self::visit_directive, (r, &d), ()),
                        Visit::HtmlNode(n) => call_ensures(Self::visit_html_node, (r, &n), ()),
                        _ => false,
                    }), rs, fs, ((Seq::<Visit>::empty() + attribute_visits(el.attributes@)) + directive_visits(el.directives@)) + html_node_visits(el.children@.take(k as int)), &*old(self), &*self) && #[trigger] visit_states(rs, fs, (((Seq::<Visit>::empty() + attribute_visits(el.attributes@)) + directive_visits(el.directives@)) + html_node_visits(el.children@.take(k as int))).len(), &*old(self), &*self),
            decreases el.children@.len() - k,
        {
            proof {
                assert(((Seq::<Visit>::empty() + attribute_visits(el.attributes@)) + directive_visits(el.directives@)) + html_node_visits(el.children@.take(k + 1)) =~= (((Seq::<Visit>::empty() + attribute_visits(el.attributes@)) + directive_visits(el.directives@)) + html_node_visits(el.children@.take(k as int))).push(Visit::HtmlNode(el.children@[k as int])));
            }
            let ghost before: &Self = &*self;
            self.visit_html_node(&el.children[k]);
            assert(exists|rs: Seq<&mut Self>, fs: Seq<&Self>|
                    (forall|k: int| 0 <= k < rs.len() ==> &*final(#[trigger] rs[k]) == fs[k])
                    && visit_steps(
                    (|r: &mut Self, x: Visit| match x {
                        Visit::Attribute(a) => call_ensures(Self::visit_attribute, (r, &a), ()),
                        Visit::Directive(d) => call_ensures(Self::visit_directive, (r, &d), ()),
                        Visit::HtmlNode(n) => call_ensures(Self::visit_html_node, (r, &n), ()),
                        _ => false,
                    }), rs, fs, (((Seq::<Visit>::empty() + attribute_visits(el.attributes@)) + directive_visits(el.directives@)) + html_node_visits(el.children@.take(k as int))).push(Visit::HtmlNode(el.children@[k as int])), &*old(self), &*self) && #[trigger] visit_states(rs, fs, ((((Seq::<Visit>::empty() + attribute_visits(el.attributes@)) + directive_visits(el.directives@)) + html_node_visits(el.children@.take(k as int))).push(Visit::HtmlNode(el.children@[k as int]))).len(), &*old(self), &*self)) by {
                let (rs0, fs0) = choose|rs: Seq<&mut Self>, fs: Seq<&Self>|
                    (forall|k: int| 0 <= k < rs.len() ==> &*final(#[trigger] rs[k]) == fs[k])
                    && visit_steps(
                    (|r: &mut Self, x: Visit| match x {
                        Visit::Attribute(a) => call_ensures(Self::visit_attribute, (r, &a), ()),
                        Visit::Directive(d) => call_ensures(Self::visit_directive, (r, &d), ()),
                        Visit::HtmlNode(n) => call_ensures(Self::visit_html_node, (r, &n), ()),
                        _ => false,
                    }), rs, fs, (((Seq::<Visit>::empty() + attribute_visits(el.attributes@)) + directive_visits(el.directives@)) + html_node_visits(el.children@.take(k as int))), &*old(self), before) && #[trigger] visit_states(rs, fs, ((((Seq::<Visit>::empty() + attribute_visits(el.attributes@)) + directive_visits(el.directives@)) + html_node_visits(el.children@.take(k as int)))).len(), &*old(self), before);
                let r = choose|r: &mut Self| &*r == before && &*final(r) == &*self && call_ensures(Self::visit_html_node, (r, &el.children@[k as int]), ());
                lemma_visit_steps_push((|r: &mut Self, x: Visit| match x {
                        Visit::Attribute(a) => call_ensures(Self::visit_attribute, (r, &a), ()),
                        Visit::Directive(d) => call_ensures(Self::visit_directive, (r, &d), ()),
                        Visit::HtmlNode(n) => call_ensures(Self::visit_html_node, (r, &n), ()),
                        _ => false,
                    }), rs0, fs0, (((Seq::<Visit>::empty() + attribute_visits(el.attributes@)) + directive_visits(el.directives@)) + html_node_visits(el.children@.take(k as int))), &*old(self), before, r, Visit::HtmlNode(el.children@[k as int]), &*self);
                assert(forall|k: int| 0 <= k < rs0.push(r).len() ==> &*final(#[trigger] rs0.push(r)[k]) == fs0.push(&*self)[k]);
            }
            k = k + 1;
        }
        proof {
            assert(el.children@.take(k as int) =~= el.children@);
        }
        proof {
            assert(((Seq::<Visit>::empty() + attribute_visits(el.attributes@)) + directive_visits(el.directives@)) + html_node_visits(el.children@) =~= element_visits(*el));
        }
    }

    /// Visit a branch of an `{#if}` chain. Default: as [`walk_if_branch`].
    fn visit_if_branch(&mut self, branch: &IfBranch)
        default_ensures
            exists|rs: Seq<&mut Self>, fs: Seq<&Self>|
                (forall|k: int| 0 <= k < rs.len() ==> &*final(#[trigger] rs[k]) == fs[k])
                && visit_steps(
                    (|r: &mut Self, x: Visit| match x {
                        Visit::HtmlNode(n) => call_ensures(Self::visit_html_node, (r, &n), ()),
                        _ => false,
                    }), rs, fs, html_node_visits(branch.children@), &*old(self), &*final(self)) && #[trigger] visit_states(rs, fs, (html_node_visits(branch.children@)).len(), &*old(self), &*final(self)),
    {
        proof {
            assert(visit_steps((|r: &mut Self, x: Visit| match x {
                        Visit::HtmlNode(n) => call_ensures(Self::visit_html_node, (r, &n), ()),
                        _ => false,
                    }), Seq::<&mut Self>::empty(), Seq::<&Self>::empty(), Seq::<Visit>::empty(), &*old(self), &*self));
        }
        let mut i: usize = 0;
        proof {
            assert(Seq::<Visit>::empty() + html_node_visits(branch.children@.take(0)) =~= Seq::<Visit>::empty());
        }
        while i < branch.children.len()
            invariant
                i <= branch.children@.len(),
                exists|rs: Seq<&mut Self>, fs: Seq<&Self>|
                    (forall|k: int| 0 <= k < rs.len() ==> &*final(#[trigger] rs[k]) == fs[k])
                    && visit_steps(
                    (|r: &mut Self, x: Visit| match x {
                        Visit::HtmlNode(n) => call_ensures(Self::visit_html_node, (r, &n), ()),
                        _ => false,
                    }), rs, fs, Seq::<Visit>::empty() + html_node_visits(branch.children@.take(i as int)), &*old(self), &*self) && #[trigger] visit_states(rs, fs, (Seq::<Visit>::empty() + html_node_visits(branch.children@.take(i as int))).len(), &*old(self), &*self),
            decreases branch.children@.len() - i,
        {
            proof {
                assert(Seq::<Visit>::empty() + html_node_visits(branch.children@.take(i + 1)) =~= (Seq::<Visit>::empty() + html_node_visits(branch.children@.take(i as int))).push(Visit::HtmlNode(branch.children@[i as int])));
            }
            let ghost before: &Self = &*self;
            self.visit_html_node(&branch.children[i]);
            assert(exists|rs: Seq<&mut Self>, fs: Seq<&Self>|
                    (forall|k: int| 0 <= k < rs.len() ==> &*final(#[trigger] rs[k]) == fs[k])
                    && visit_steps(
                    (|r: &mut Self, x: Visit| match x {
                        Visit::HtmlNode(n) => call_ensures(Self::visit_html_node, (r, &n), ()),
                        _ => false,
                    }), rs, fs, (Seq::<Visit>::empty() + html_node_visits(branch.children@.take(i as int))).push(Visit::HtmlNode(branch.children@[i as int])), &*old(self), &*self) && #[trigger] visit_states(rs, fs, ((Seq::<Visit>::empty() + html_node_visits(branch.children@.take(i as int))).push(Visit::HtmlNode(branch.children@[i as int]))).len(), &*old(self), &*self)) by {
                let (rs0, fs0) = choose|rs: Seq<&mut Self>, fs: Seq<&Self>|
                    (forall|k: int| 0 <= k < rs.len() ==> &*final(#[trigger] rs[k]) == fs[k])
                    && visit_steps(
                    (|r: &mut Self, x: Visit| match x {
                        Visit::HtmlNode(n) => call_ensures(Self::visit_html_node, (r, &n), ()),
                        _ => false,
                    }), rs, fs, (Seq::<Visit>::empty() + html_node_visits(branch.children@.take(i as int))), &*old(self), before) && #[trigger] visit_states(rs, fs, ((Seq::<Visit>::empty() + html_node_visits(branch.children@.take(i as int)))).len(), &*old(self), before);
                let r = choose|r: &mut Self| &*r == before && &*final(r) == &*self && call_ensures(Self::visit_html_node, (r, &branch.children@[i as int]), ());
                lemma_visit_steps_push((|r: &mut Self, x: Visit| match x {
                        Visit::HtmlNode(n) => call_ensures(Self::visit_html_node, (r, &n), ()),
                        _ => false,
                    }), rs0, fs0, (Seq::<Visit>::empty() + html_node_visits(branch.children@.take(i as int))), &*old(self), before, r, Visit::HtmlNode(branch.children@[i as int]), &*self);
                assert(forall|k: int| 0 <= k < rs0.push(r).len() ==> &*final(#[trigger] rs0.push(r)[k]) == fs0.push(&*self)[k]);
            }
            i = i + 1;
        }
        proof {
            assert(branch.children@.take(i as int) =~= branch.children@);
        }
        proof {
            assert(Seq::<Visit>::empty() + html_node_visits(branch.children@) =~= html_node_visits(branch.children@));
        }
    }

    /// Visit an attribute on an element. Default: [`walk_attribute`].
    fn visit_attribute(&mut self, attr: &Attribute)
        default_ensures
            exists|rs: Seq<&mut Self>, fs: Seq<&Self>|
                (forall|k: int| 0 <= k < rs.len() ==> &*final(#[trigger] rs[k]) == fs[k])
                && visit_steps(
                    (|r: &mut Self, x: Visit| match x {
                        Visit::TemplateNode(n) => call_ensures(Self::visit_template_node, (r, &n), ()),
                        _ => false,
                    }), rs, fs, template_node_visits(attr.value@), &*old(self), &*final(self)) && #[trigger] visit_states(rs, fs, (template_node_visits(attr.value@)).len(), &*old(self), &*final(self)),
    {
        proof {
            assert(visit_steps((|r: &mut Self, x: Visit| match x {
                        Visit::TemplateNode(n) => call_ensures(Self::visit_template_node, (r, &n), ()),
                        _ => false,
                    }), Seq::<&mut Self>::empty(), Seq::<&Self>::empty(), Seq::<Visit>::empty(), &*old(self), &*self));
        }
        let mut i: usize = 0;
        proof {
            assert(Seq::<Visit>::empty() + template_node_visits(attr.value@.take(0)) =~= Seq::<Visit>::empty());
        }
        while i < attr.value.len()
            invariant
                i <= attr.value@.len(),
                exists|rs: Seq<&mut Self>, fs: Seq<&Self>|
                    (forall|k: int| 0 <= k < rs.len() ==> &*final(#[trigger] rs[k]) == fs[k])
                    && visit_steps(
                    (|r: &mut Self, x: Visit| match x {
                        Visit::TemplateNode(n) => call_ensures(Self::visit_template_node, (r, &n), ()),
                        _ => false,
                    }), rs, fs, Seq::<Visit>::empty() + template_node_visits(attr.value@.take(i as int)), &*old(self), &*self) && #[trigger] visit_states(rs, fs, (Seq::<Visit>::empty() + template_node_visits(attr.value@.take(i as int))).len(), &*old(self), &*self),
            decreases attr.value@.len() - i,
        {
            proof {
                assert(Seq::<Visit>::empty() + template_node_visits(attr.value@.take(i + 1)) =~= (Seq::<Visit>::empty() + template_node_visits(attr.value@.take(i as int))).push(Visit::TemplateNode(attr.value@[i as int])));
            }
            let ghost before: &Self = &*self;
            self.visit_template_node(&attr.value[i]);
            assert(exists|rs: Seq<&mut Self>, fs: Seq<&Self>|
                    (forall|k: int| 0 <= k < rs.len() ==> &*final(#[trigger] rs[k]) == fs[k])
                    && visit_steps(
                    (|r: &mut Self, x: Visit| match x {
                        Visit::TemplateNode(n) => call_ensures(Self::visit_template_node, (r, &n), ()),
                        _ => false,
                    }), rs, fs, (Seq::<Visit>::empty() + template_node_visits(attr.value@.take(i as int))).push(Visit::TemplateNode(attr.value@[i as int])), &*old(self), &*self) && #[trigger] visit_states(rs, fs, ((Seq::<Visit>::empty() + template_node_visits(attr.value@.take(i as int))).push(Visit::TemplateNode(attr.value@[i as int]))).len(), &*old(self), &*self)) by {
                let (rs0, fs0) = choose|rs: Seq<&mut Self>, fs: Seq<&Self>|
                    (forall|k: int| 0 <= k < rs.len() ==> &*final(#[trigger] rs[k]) == fs[k])
                    && visit_steps(
                    (|r: &mut Self, x: Visit| match x {
                        Visit::TemplateNode(n) => call_ensures(Self::visit_template_node, (r, &n), ()),
                        _ => false,
                    }), rs, fs, (Seq::<Visit>::empty() + template_node_visits(attr.value@.take(i as int))), &*old(self), before) && #[trigger] visit_states(rs, fs, ((Seq::<Visit>::empty() + template_node_visits(attr.value@.take(i as int)))).len(), &*old(self), before);
                let r = choose|r: &mut Self| &*r == before && &*final(r) == &*self && call_ensures(Self::visit_template_node, (r, &attr.value@[i as int]), ());
                lemma_visit_steps_push((|r: &mut Self, x: Visit| match x {
                        Visit::TemplateNode(n) => call_ensures(Self::visit_template_node, (r, &n), ()),
                        _ => false,
                    }), rs0, fs0, (Seq::<Visit>::empty() + template_node_visits(attr.value@.take(i as int))), &*old(self), before, r, Visit::TemplateNode(attr.value@[i as int]), &*self);
                assert(forall|k: int| 0 <= k < rs0.push(r).len() ==> &*final(#[trigger] rs0.push(r)[k]) == fs0.push(&*self)[k]);
            }
            i = i + 1;
        }
        proof {
            assert(attr.value@.take(i as int) =~= attr.value@);
        }
        proof {
            assert(Seq::<Visit>::empty() + template_node_visits(attr.value@) =~= template_node_visits(attr.value@));
        }
    }

    /// Visit a directive on an element. Leaf.
    fn visit_directive(&mut self, directive: &Directive) {
    }
}

/// Walk the top-level AST: the `<script setup>` block, the `<script>`
/// block, the styles, then the template fragments, in that order.
pub fn walk_ast<V: Visitor + ?Sized>(v: &mut V, ast: &ThebeAst)
    ensures
        exists|rs: Seq<&mut V>, fs: Seq<&V>|
            (forall|k: int| 0 <= k < rs.len() ==> &*final(#[trigger] rs[k]) == fs[k])
            && #[trigger] visit_steps(visit_called::<V>(), rs, fs, ast_visits(*ast), &*old(v), &*final(v)),
{
    proof {
        assert(visit_steps(visit_called::<V>(), Seq::<&mut V>::empty(), Seq::<&V>::empty(), Seq::<Visit>::empty(), &*old(v), &*v));
    }
    if let Some(script) = &ast.script_setup {
        proof {
            assert(Seq::<Visit>::empty() + script_visits(ast.script_setup) =~= Seq::<Visit>::empty().push(Visit::Script(*script)));
        }
        let ghost before: &V = &*v;
        v.visit_script(script);
        assert(exists|rs: Seq<&mut V>, fs: Seq<&V>|
                (forall|k: int| 0 <= k < rs.len() ==> &*final(#[trigger] rs[k]) == fs[k])
                && #[trigger] visit_steps(visit_called::<V>(), rs, fs, Seq::<Visit>::empty().push(Visit::Script(*script)), &*old(v), &*v)) by {
            let (rs0, fs0) = choose|rs: Seq<&mut V>, fs: Seq<&V>|
                (forall|k: int| 0 <= k < rs.len() ==> &*final(#[trigger] rs[k]) == fs[k])
                && #[trigger] visit_steps(visit_called::<V>(), rs, fs, Seq::<Visit>::empty(), &*old(v), before);
            let r = choose|r: &mut V| &*r == before && &*final(r) == &*v && call_ensures(V::visit_script, (r, &*script), ());
            lemma_visit_steps_push(visit_called::<V>(), rs0, fs0, Seq::<Visit>::empty(), &*old(v), before, r, Visit::Script(*script), &*v);
            assert(forall|k: int| 0 <= k < rs0.push(r).len() ==> &*final(#[trigger] rs0.push(r)[k]) == fs0.push(&*v)[k]);
        }
    } else {
        proof {
            assert(Seq::<Visit>::empty() + script_visits(ast.script_setup) =~= Seq::<Visit>::empty());
        }
    }
    proof {
        assert(Seq::<Visit>::empty() + script_visits(ast.script_setup) =~= script_visits(ast.script_setup));
    }
    if let Some(script) = &ast.script {
        proof {
            assert(script_visits(ast.script_setup) + script_visits(ast.script) =~= script_visits(ast.script_setup).push(Visit::Script(*script)));
        }
        let ghost before: &V = &*v;
        v.visit_script(script);
        assert(exists|rs: Seq<&mut V>, fs: Seq<&V>|
                (forall|k: int| 0 <= k < rs.len() ==> &*final(#[trigger] rs[k]) == fs[k])
                && #[trigger] visit_steps(visit_called::<V>(), rs, fs, script_visits(ast.script_setup).push(Visit::Script(*script)), &*old(v), &*v)) by {
            let (rs0, fs0) = choose|rs: Seq<&mut V>, fs: Seq<&V>|
                (forall|k: int| 0 <= k < rs.len() ==> &*final(#[trigger] rs[k]) == fs[k])
                && #[trigger] visit_steps(visit_called::<V>(), rs, fs, script_visits(ast.script_setup), &*old(v), before);
            let r = choose|r: &mut V| &*r == before && &*final(r) == &*v && call_ensures(V::visit_script, (r, &*script), ());
            lemma_visit_steps_push(visit_called::<V>(), rs0, fs0, script_visits(ast.script_setup), &*old(v), before, r, Visit::Script(*script), &*v);
            assert(forall|k: int| 0 <= k < rs0.push(r).len() ==> &*final(#[trigger] rs0.push(r)[k]) == fs0.push(&*v)[k]);
        }
    } else {
        proof {
            assert(script_visits(ast.script_setup) + script_visits(ast.script) =~= script_visits(ast.script_setup));
        }
    }
    let mut i: usize = 0;
    proof {
        assert((script_visits(ast.script_setup) + script_visits(ast.script)) + style_visits(ast.styles@.take(0)) =~= (script_visits(ast.script_setup) + script_visits(ast.script)));
    }
    while i < ast.styles.len()
        invariant
            i <= ast.styles@.len(),
            exists|rs: Seq<&mut V>, fs: Seq<&V>|
                (forall|k: int| 0 <= k < rs.len() ==> &*final(#[trigger] rs[k]) == fs[k])
                && #[trigger] visit_steps(visit_called::<V>(), rs, fs, (script_visits(ast.script_setup) + script_visits(ast.script)) + style_visits(ast.styles@.take(i as int)), &*old(v), &*v),
        decreases ast.styles@.len() - i,
    {
        proof {
            assert((script_visits(ast.script_setup) + script_visits(ast.script)) + style_visits(ast.styles@.take(i + 1)) =~= ((script_visits(ast.script_setup) + script_visits(ast.script)) + style_visits(ast.styles@.take(i as int))).push(Visit::Style(ast.styles@[i as int])));
        }
        let ghost before: &V = &*v;
        v.visit_style(&ast.styles[i]);
        assert(exists|rs: Seq<&mut V>, fs: Seq<&V>|
                (forall|k: int| 0 <= k < rs.len() ==> &*final(#[trigger] rs[k]) == fs[k])
                && #[trigger] visit_steps(visit_called::<V>(), rs, fs, ((script_visits(ast.script_setup) + script_visits(ast.script)) + style_visits(ast.styles@.take(i as int))).push(Visit::Style(ast.styles@[i as int])), &*old(v), &*v)) by {
            let (rs0, fs0) = choose|rs: Seq<&mut V>, fs: Seq<&V>|
                (forall|k: int| 0 <= k < rs.len() ==> &*final(#[trigger] rs[k]) == fs[k])
                && #[trigger] visit_steps(visit_called::<V>(), rs, fs, ((script_visits(ast.script_setup) + script_visits(ast.script)) + style_visits(ast.styles@.take(i as int))), &*old(v), before);
            let r = choose|r: &mut V| &*r == before && &*final(r) == &*v && call_ensures(V::visit_style, (r, &ast.styles@[i as int]), ());
            lemma_visit_steps_push(visit_called::<V>(), rs0, fs0, ((script_visits(ast.script_setup) + script_visits(ast.script)) + style_visits(ast.styles@.take(i as int))), &*old(v), before, r, Visit::Style(ast.styles@[i as int]), &*v);
            assert(forall|k: int| 0 <= k < rs0.push(r).len() ==> &*final(#[trigger] rs0.push(r)[k]) == fs0.push(&*v)[k]);
        }
        i = i + 1;
    }
    proof {
        assert(ast.styles@.take(i as int) =~= ast.styles@);
    }
    let mut j: usize = 0;
    proof {
        assert(((script_visits(ast.script_setup) + script_visits(ast.script)) + style_visits(ast.styles@)) + fragment_visits(ast.template@.take(0)) =~= ((script_visits(ast.script_setup) + script_visits(ast.script)) + style_visits(ast.styles@)));
    }
    while j < ast.template.len()
        invariant
            j <= ast.template@.len(),
            exists|rs: Seq<&mut V>, fs: Seq<&V>|
                (forall|k: int| 0 <= k < rs.len() ==> &*final(#[trigger] rs[k]) == fs[k])
                && #[trigger] visit_steps(visit_called::<V>(), rs, fs, ((script_visits(ast.script_setup) + script_visits(ast.script)) + style_visits(ast.styles@)) + fragment_visits(ast.template@.take(j as int)), &*old(v), &*v),
        decreases ast.template@.len() - j,
    {
        proof {
            assert(((script_visits(ast.script_setup) + script_visits(ast.script)) + style_visits(ast.styles@)) + fragment_visits(ast.template@.take(j + 1)) =~= (((script_visits(ast.script_setup) + script_visits(ast.script)) + style_visits(ast.styles@)) + fragment_visits(ast.template@.take(j as int))).push(Visit::Fragment(ast.template@[j as int])));
        }
        let ghost before: &V = &*v;
        v.visit_template_fragment(&ast.template[j]);
        assert(exists|rs: Seq<&mut V>, fs: Seq<&V>|
                (forall|k: int| 0 <= k < rs.len() ==> &*final(#[trigger] rs[k]) == fs[k])
                && #[trigger] visit_steps(visit_called::<V>(), rs, fs, (((script_visits(ast.script_setup) + script_visits(ast.script)) + style_visits(ast.styles@)) + fragment_visits(ast.template@.take(j as int))).push(Visit::Fragment(ast.template@[j as int])), &*old(v), &*v)) by {
            let (rs0, fs0) = choose|rs: Seq<&mut V>, fs: Seq<&V>|
                (forall|k: int| 0 <= k < rs.len() ==> &*final(#[trigger] rs[k]) == fs[k])
                && #[trigger] visit_steps(visit_called::<V>(), rs, fs, (((script_visits(ast.script_setup) + script_visits(ast.script)) + style_visits(ast.styles@)) + fragment_visits(ast.template@.take(j as int))), &*old(v), before);
            let r = choose|r: &mut V| &*r == before && &*final(r) == &*v && call_ensures(V::visit_template_fragment, (r, &ast.template@[j as int]), ());
            lemma_visit_steps_push(visit_called::<V>(), rs0, fs0, (((script_visits(ast.script_setup) + script_visits(ast.script)) + style_visits(ast.styles@)) + fragment_visits(ast.template@.take(j as int))), &*old(v), before, r, Visit::Fragment(ast.template@[j as int]), &*v);
            assert(forall|k: int| 0 <= k < rs0.push(r).len() ==> &*final(#[trigger] rs0.push(r)[k]) == fs0.push(&*v)[k]);
        }
        j = j + 1;
    }
    proof {
        assert(ast.template@.take(j as int) =~= ast.template@);
    }
    proof {
        assert(((script_visits(ast.script_setup) + script_visits(ast.script)) + style_visits(ast.styles@)) + fragment_visits(ast.template@) =~= ast_visits(*ast));
    }
}

/// Walk a template fragment: visit each of its nodes in order.
pub fn walk_template_fragment<V: Visitor + ?Sized>(v: &mut V, frag: &TemplateFragment)
    ensures
        exists|rs: Seq<&mut V>, fs: Seq<&V>|
            (forall|k: int| 0 <= k < rs.len() ==> &*final(#[trigger] rs[k]) == fs[k])
            && #[trigger] visit_steps(visit_called::<V>(), rs, fs, template_node_visits(frag.nodes@), &*old(v), &*final(v)),
{
    proof {
        assert(visit_steps(visit_called::<V>(), Seq::<&mut V>::empty(), Seq::<&V>::empty(), Seq::<Visit>::empty(), &*old(v), &*v));
    }
    let mut i: usize = 0;
    proof {
        assert(Seq::<Visit>::empty() + template_node_visits(frag.nodes@.take(0)) =~= Seq::<Visit>::empty());
    }
    while i < frag.nodes.len()
        invariant
            i <= frag.nodes@.len(),
            exists|rs: Seq<&mut V>, fs: Seq<&V>|
                (forall|k: int| 0 <= k < rs.len() ==> &*final(#[trigger] rs[k]) == fs[k])
                && #[trigger] visit_steps(visit_called::<V>(), rs, fs, Seq::<Visit>::empty() + template_node_visits(frag.nodes@.take(i as int)), &*old(v), &*v),
        decreases frag.nodes@.len() - i,
    {
        proof {
            assert(Seq::<Visit>::empty() + template_node_visits(frag.nodes@.take(i + 1)) =~= (Seq::<Visit>::empty() + template_node_visits(frag.nodes@.take(i as int))).push(Visit::TemplateNode(frag.nodes@[i as int])));
        }
        let ghost before: &V = &*v;
        v.visit_template_node(&frag.nodes[i]);
        assert(exists|rs: Seq<&mut V>, fs: Seq<&V>|
                (forall|k: int| 0 <= k < rs.len() ==> &*final(#[trigger] rs[k]) == fs[k])
                && #[trigger] visit_steps(visit_called::<V>(), rs, fs, (Seq::<Visit>::empty() + template_node_visits(frag.nodes@.take(i as int))).push(Visit::TemplateNode(frag.nodes@[i as int])), &*old(v), &*v)) by {
            let (rs0, fs0) = choose|rs: Seq<&mut V>, fs: Seq<&V>|
                (forall|k: int| 0 <= k < rs.len() ==> &*final(#[trigger] rs[k]) == fs[k])
                && #[trigger] visit_steps(visit_called::<V>(), rs, fs, (Seq::<Visit>::empty() + template_node_visits(frag.nodes@.take(i as int))), &*old(v), before);
            let r = choose|r: &mut V| &*r == before && &*final(r) == &*v && call_ensures(V::visit_template_node, (r, &frag.nodes@[i as int]), ());
            lemma_visit_steps_push(visit_called::<V>(), rs0, fs0, (Seq::<Visit>::empty() + template_node_visits(frag.nodes@.take(i as int))), &*old(v), before, r, Visit::TemplateNode(frag.nodes@[i as int]), &*v);
            assert(forall|k: int| 0 <= k < rs0.push(r).len() ==> &*final(#[trigger] rs0.push(r)[k]) == fs0.push(&*v)[k]);
        }
        i = i + 1;
    }
    proof {
        assert(frag.nodes@.take(i as int) =~= frag.nodes@);
    }
    proof {
        assert(Seq::<Visit>::empty() + template_node_visits(frag.nodes@) =~= template_node_visits(frag.nodes@));
    }
}

fn visit_children<V: Visitor + ?Sized>(v: &mut V, children: &Vec<HtmlNode>)
    ensures
        exists|rs: Seq<&mut V>, fs: Seq<&V>|
            (forall|k: int| 0 <= k < rs.len() ==> &*final(#[trigger] rs[k]) == fs[k])
            && #[trigger] visit_steps(visit_called::<V>(), rs, fs, html_node_visits(children@), &*old(v), &*final(v)),
{
    proof {
        assert(visit_steps(visit_called::<V>(), Seq::<&mut V>::empty(), Seq::<&V>::empty(), Seq::<Visit>::empty(), &*old(v), &*v));
    }
    let mut i: usize = 0;
    proof {
        assert(Seq::<Visit>::empty() + html_node_visits(children@.take(0)) =~= Seq::<Visit>::empty());
    }
    while i < children.len()
        invariant
            i <= children@.len(),
            exists|rs: Seq<&mut V>, fs: Seq<&V>|
                (forall|k: int| 0 <= k < rs.len() ==> &*final(#[trigger] rs[k]) == fs[k])
                && #[trigger] visit_steps(visit_called::<V>(), rs, fs, Seq::<Visit>::empty() + html_node_visits(children@.take(i as int)), &*old(v), &*v),
        decreases children@.len() - i,
    {
        proof {
            assert(Seq::<Visit>::empty() + html_node_visits(children@.take(i + 1)) =~= (Seq::<Visit>::empty() + html_node_visits(children@.take(i as int))).push(Visit::HtmlNode(children@[i as int])));
        }
        let ghost before: &V = &*v;
        v.visit_html_node(&children[i]);
        assert(exists|rs: Seq<&mut V>, fs: Seq<&V>|
                (forall|k: int| 0 <= k < rs.len() ==> &*final(#[trigger] rs[k]) == fs[k])
                && #[trigger] visit_steps(visit_called::<V>(), rs, fs, (Seq::<Visit>::empty() + html_node_visits(children@.take(i as int))).push(Visit::HtmlNode(children@[i as int])), &*old(v), &*v)) by {
            let (rs0, fs0) = choose|rs: Seq<&mut V>, fs: Seq<&V>|
                (forall|k: int| 0 <= k < rs.len() ==> &*final(#[trigger] rs[k]) == fs[k])
                && #[trigger] visit_steps(visit_called::<V>(), rs, fs, (Seq::<Visit>::empty() + html_node_visits(children@.take(i as int))), &*old(v), before);
            let r = choose|r: &mut V| &*r == before && &*final(r) == &*v && call_ensures(V::visit_html_node, (r, &children@[i as int]), ());
            lemma_visit_steps_push(visit_called::<V>(), rs0, fs0, (Seq::<Visit>::empty() + html_node_visits(children@.take(i as int))), &*old(v), before, r, Visit::HtmlNode(children@[i as int]), &*v);
            assert(forall|k: int| 0 <= k < rs0.push(r).len() ==> &*final(#[trigger] rs0.push(r)[k]) == fs0.push(&*v)[k]);
        }
        i = i + 1;
    }
    proof {
        assert(children@.take(i as int) =~= children@);
    }
    proof {
        assert(Seq::<Visit>::empty() + html_node_visits(children@) =~= html_node_visits(children@));
    }
}

fn visit_branches<V: Visitor + ?Sized>(v: &mut V, branches: &Vec<IfBranch>)
    ensures
        exists|rs: Seq<&mut V>, fs: Seq<&V>|
            (forall|k: int| 0 <= k < rs.len() ==> &*final(#[trigger] rs[k]) == fs[k])
            && #[trigger] visit_steps(node_visit_called::<V>(), rs, fs, if_branch_visits(branches@), &*old(v), &*final(v)),
{
    proof {
        assert(visit_steps(node_visit_called::<V>(), Seq::<&mut V>::empty(), Seq::<&V>::empty(), Seq::<Visit>::empty(), &*old(v), &*v));
    }
    let mut i: usize = 0;
    proof {
        assert(Seq::<Visit>::empty() + if_branch_visits(branches@.take(0)) =~= Seq::<Visit>::empty());
    }
    while i < branches.len()
        invariant
            i <= branches@.len(),
            exists|rs: Seq<&mut V>, fs: Seq<&V>|
                (forall|k: int| 0 <= k < rs.len() ==> &*final(#[trigger] rs[k]) == fs[k])
                && #[trigger] visit_steps(node_visit_called::<V>(), rs, fs, Seq::<Visit>::empty() + if_branch_visits(branches@.take(i as int)), &*old(v), &*v),
        decreases branches@.len() - i,
    {
        proof {
            assert(Seq::<Visit>::empty() + if_branch_visits(branches@.take(i + 1)) =~= (Seq::<Visit>::empty() + if_branch_visits(branches@.take(i as int))).push(Visit::IfBranch(branches@[i as int])));
        }
        let ghost before: &V = &*v;
        v.visit_if_branch(&branches[i]);
        assert(exists|rs: Seq<&mut V>, fs: Seq<&V>|
                (forall|k: int| 0 <= k < rs.len() ==> &*final(#[trigger] rs[k]) == fs[k])
                && #[trigger] visit_steps(node_visit_called::<V>(), rs, fs, (Seq::<Visit>::empty() + if_branch_visits(branches@.take(i as int))).push(Visit::IfBranch(branches@[i as int])), &*old(v), &*v)) by {
            let (rs0, fs0) = choose|rs: Seq<&mut V>, fs: Seq<&V>|
                (forall|k: int| 0 <= k < rs.len() ==> &*final(#[trigger] rs[k]) == fs[k])
                && #[trigger] visit_steps(node_visit_called::<V>(), rs, fs, (Seq::<Visit>::empty() + if_branch_visits(branches@.take(i as int))), &*old(v), before);
            let r = choose|r: &mut V| &*r == before && &*final(r) == &*v && call_ensures(V::visit_if_branch, (r, &branches@[i as int]), ());
            lemma_visit_steps_push(node_visit_called::<V>(), rs0, fs0, (Seq::<Visit>::empty() + if_branch_visits(branches@.take(i as int))), &*old(v), before, r, Visit::IfBranch(branches@[i as int]), &*v);
            assert(forall|k: int| 0 <= k < rs0.push(r).len() ==> &*final(#[trigger] rs0.push(r)[k]) == fs0.push(&*v)[k]);
        }
        i = i + 1;
    }
    proof {
        assert(branches@.take(i as int) =~= branches@);
    }
    proof {
        assert(Seq::<Visit>::empty() + if_branch_visits(branches@) =~= if_branch_visits(branches@));
    }
}

fn visit_one_element<V: Visitor + ?Sized>(v: &mut V, el: &Element)
    ensures
        exists|rs: Seq<&mut V>, fs: Seq<&V>|
            (forall|k: int| 0 <= k < rs.len() ==> &*final(#[trigger] rs[k]) == fs[k])
            && #[trigger] visit_steps(node_visit_called::<V>(), rs, fs, single_element_visit(*el), &*old(v), &*final(v)),
{
    proof {
        assert(visit_steps(node_visit_called::<V>(), Seq::<&mut V>::empty(), Seq::<&V>::empty(), Seq::<Visit>::empty(), &*old(v), &*v));
    }
    let ghost before: &V = &*v;
    v.visit_element(el);
    assert(exists|rs: Seq<&mut V>, fs: Seq<&V>|
            (forall|k: int| 0 <= k < rs.len() ==> &*final(#[trigger] rs[k]) == fs[k])
            && #[trigger] visit_steps(node_visit_called::<V>(), rs, fs, Seq::<Visit>::empty().push(Visit::Element(*el)), &*old(v), &*v)) by {
        let (rs0, fs0) = choose|rs: Seq<&mut V>, fs: Seq<&V>|
            (forall|k: int| 0 <= k < rs.len() ==> &*final(#[trigger] rs[k]) == fs[k])
            && #[trigger] visit_steps(node_visit_called::<V>(), rs, fs, Seq::<Visit>::empty(), &*old(v), before);
        let r = choose|r: &mut V| &*r == before && &*final(r) == &*v && call_ensures(V::visit_element, (r, &*el), ());
        lemma_visit_steps_push(node_visit_called::<V>(), rs0, fs0, Seq::<Visit>::empty(), &*old(v), before, r, Visit::Element(*el), &*v);
        assert(forall|k: int| 0 <= k < rs0.push(r).len() ==> &*final(#[trigger] rs0.push(r)[k]) == fs0.push(&*v)[k]);
    }
    proof {
        assert(Seq::<Visit>::empty().push(Visit::Element(*el)) =~= single_element_visit(*el));
    }
}

/// Walk an [`HtmlNode`]: an element or component is visited as an
/// element; an `{#if}` visits its branches; `{#each}`, `<slot>` and
/// `<thebe:head>` visit their children; other nodes are leaves.
pub fn walk_html_node<V: Visitor + ?Sized>(v: &mut V, node: &HtmlNode)
    ensures
        exists|rs: Seq<&mut V>, fs: Seq<&V>|
            (forall|k: int| 0 <= k < rs.len() ==> &*final(#[trigger] rs[k]) == fs[k])
            && #[trigger] visit_steps(node_visit_called::<V>(), rs, fs, node_visits(*node), &*old(v), &*final(v)),
{
    match node {
        HtmlNode::Element(el) => {
            visit_one_element(v, el);
            proof {
                assert(node_visits(*node) == single_element_visit(*el));
                assert(exists|rs: Seq<&mut V>, fs: Seq<&V>|
                    (forall|k: int| 0 <= k < rs.len() ==> &*final(#[trigger] rs[k]) == fs[k])
                    && #[trigger] visit_steps(node_visit_called::<V>(), rs, fs, single_element_visit(*el), &*old(v), &*v));
                assert(exists|rs: Seq<&mut V>, fs: Seq<&V>|
                    (forall|k: int| 0 <= k < rs.len() ==> &*final(#[trigger] rs[k]) == fs[k])
                    && #[trigger] visit_steps(node_visit_called::<V>(), rs, fs, node_visits(*node), &*old(v), &*v));
            }
        },
        HtmlNode::Component(el) => {
            visit_one_element(v, el);
            proof {
                assert(node_visits(*node) == single_element_visit(*el));
                assert(exists|rs: Seq<&mut V>, fs: Seq<&V>|
                    (forall|k: int| 0 <= k < rs.len() ==> &*final(#[trigger] rs[k]) == fs[k])
                    && #[trigger] visit_steps(node_visit_called::<V>(), rs, fs, single_element_visit(*el), &*old(v), &*v));
                assert(exists|rs: Seq<&mut V>, fs: Seq<&V>|
                    (forall|k: int| 0 <= k < rs.len() ==> &*final(#[trigger] rs[k]) == fs[k])
                    && #[trigger] visit_steps(node_visit_called::<V>(), rs, fs, node_visits(*node), &*old(v), &*v));
            }
        },
        HtmlNode::If { branches, .. } => {
            visit_branches(v, branches);
            proof {
                assert(node_visits(*node) == if_branch_visits(branches@));
                assert(exists|rs: Seq<&mut V>, fs: Seq<&V>|
                    (forall|k: int| 0 <= k < rs.len() ==> &*final(#[trigger] rs[k]) == fs[k])
                    && #[trigger] visit_steps(node_visit_called::<V>(), rs, fs, if_branch_visits(branches@), &*old(v), &*v));
                assert(exists|rs: Seq<&mut V>, fs: Seq<&V>|
                    (forall|k: int| 0 <= k < rs.len() ==> &*final(#[trigger] rs[k]) == fs[k])
                    && #[trigger] visit_steps(node_visit_called::<V>(), rs, fs, node_visits(*node), &*old(v), &*v));
            }
        },
        HtmlNode::Each { children, .. } => {
            visit_children(v, children);
            assert(exists|rs: Seq<&mut V>, fs: Seq<&V>|
                (forall|k: int| 0 <= k < rs.len() ==> &*final(#[trigger] rs[k]) == fs[k])
                && #[trigger] visit_steps(node_visit_called::<V>(), rs, fs, html_node_visits(children@), &*old(v), &*v)) by {
                let (rs0, fs0) = choose|rs: Seq<&mut V>, fs: Seq<&V>|
                    (forall|k: int| 0 <= k < rs.len() ==> &*final(#[trigger] rs[k]) == fs[k])
                    && #[trigger] visit_steps(visit_called::<V>(), rs, fs, html_node_visits(children@), &*old(v), &*v);
                lemma_html_steps_widen(rs0, fs0, children@, &*old(v), &*v);
            }
            proof {
                assert(node_visits(*node) == html_node_visits(children@));
                assert(exists|rs: Seq<&mut V>, fs: Seq<&V>|
                    (forall|k: int| 0 <= k < rs.len() ==> &*final(#[trigger] rs[k]) == fs[k])
                    && #[trigger] visit_steps(node_visit_called::<V>(), rs, fs, html_node_visits(children@), &*old(v), &*v));
                assert(exists|rs: Seq<&mut V>, fs: Seq<&V>|
                    (forall|k: int| 0 <= k < rs.len() ==> &*final(#[trigger] rs[k]) == fs[k])
                    && #[trigger] visit_steps(node_visit_called::<V>(), rs, fs, node_visits(*node), &*old(v), &*v));
            }
        },
        HtmlNode::Slot { children, .. } => {
            visit_children(v, children);
            assert(exists|rs: Seq<&mut V>, fs: Seq<&V>|
                (forall|k: int| 0 <= k < rs.len() ==> &*final(#[trigger] rs[k]) == fs[k])
                && #[trigger] visit_steps(node_visit_called::<V>(), rs, fs, html_node_visits(children@), &*old(v), &*v)) by {
                let (rs0, fs0) = choose|rs: Seq<&mut V>, fs: Seq<&V>|
                    (forall|k: int| 0 <= k < rs.len() ==> &*final(#[trigger] rs[k]) == fs[k])
                    && #[trigger] visit_steps(visit_called::<V>(), rs, fs, html_node_visits(children@), &*old(v), &*v);
                lemma_html_steps_widen(rs0, fs0, children@, &*old(v), &*v);
            }
            proof {
                assert(node_visits(*node) == html_node_visits(children@));
                assert(exists|rs: Seq<&mut V>, fs: Seq<&V>|
                    (forall|k: int| 0 <= k < rs.len() ==> &*final(#[trigger] rs[k]) == fs[k])
                    && #[trigger] visit_steps(node_visit_called::<V>(), rs, fs, html_node_visits(children@), &*old(v), &*v));
                assert(exists|rs: Seq<&mut V>, fs: Seq<&V>|
                    (forall|k: int| 0 <= k < rs.len() ==> &*final(#[trigger] rs[k]) == fs[k])
                    && #[trigger] visit_steps(node_visit_called::<V>(), rs, fs, node_visits(*node), &*old(v), &*v));
            }
        },
        HtmlNode::Head { children, .. } => {
            visit_children(v, children);
            assert(exists|rs: Seq<&mut V>, fs: Seq<&V>|
                (forall|k: int| 0 <= k < rs.len() ==> &*final(#[trigger] rs[k]) == fs[k])
                && #[trigger] visit_steps(node_visit_called::<V>(), rs, fs, html_node_visits(children@), &*old(v), &*v)) by {
                let (rs0, fs0) = choose|rs: Seq<&mut V>, fs: Seq<&V>|
                    (forall|k: int| 0 <= k < rs.len() ==> &*final(#[trigger] rs[k]) == fs[k])
                    && #[trigger] visit_steps(visit_called::<V>(), rs, fs, html_node_visits(children@), &*old(v), &*v);
                lemma_html_steps_widen(rs0, fs0, children@, &*old(v), &*v);
            }
            proof {
                assert(node_visits(*node) == html_node_visits(children@));
                assert(exists|rs: Seq<&mut V>, fs: Seq<&V>|
                    (forall|k: int| 0 <= k < rs.len() ==> &*final(#[trigger] rs[k]) == fs[k])
                    && #[trigger] visit_steps(node_visit_called::<V>(), rs, fs, html_node_visits(children@), &*old(v), &*v));
                assert(exists|rs: Seq<&mut V>, fs: Seq<&V>|
                    (forall|k: int| 0 <= k < rs.len() ==> &*final(#[trigger] rs[k]) == fs[k])
                    && #[trigger] visit_steps(node_visit_called::<V>(), rs, fs, node_visits(*node), &*old(v), &*v));
            }
        },
        _ => {
            proof {
                assert(visit_steps(node_visit_called::<V>(), Seq::<&mut V>::empty(), Seq::<&V>::empty(), Seq::<Visit>::empty(), &*old(v), &*v));
                assert(Seq::<Visit>::empty() =~= node_visits(*node));
            }
        },
    }
}

/// Walk an [`Element`]: its attributes, its directives, then its children.
pub fn walk_element<V: Visitor + ?Sized>(v: &mut V, el: &Element)
    ensures
        exists|rs: Seq<&mut V>, fs: Seq<&V>|
            (forall|k: int| 0 <= k < rs.len() ==> &*final(#[trigger] rs[k]) == fs[k])
            && #[trigger] visit_steps(visit_called::<V>(), rs, fs, element_visits(*el), &*old(v), &*final(v)),
{
    proof {
        assert(visit_steps(visit_called::<V>(), Seq::<&mut V>::empty(), Seq::<&V>::empty(), Seq::<Visit>::empty(), &*old(v), &*v));
    }
    let mut i: usize = 0;
    proof {
        assert(Seq::<Visit>::empty() + attribute_visits(el.attributes@.take(0)) =~= Seq::<Visit>::empty());
    }
    while i < el.attributes.len()
        invariant
            i <= el.attributes@.len(),
            exists|rs: Seq<&mut V>, fs: Seq<&V>|
                (forall|k: int| 0 <= k < rs.len() ==> &*final(#[trigger] rs[k]) == fs[k])
                && #[trigger] visit_steps(visit_called::<V>(), rs, fs, Seq::<Visit>::empty() + attribute_visits(el.attributes@.take(i as int)), &*old(v), &*v),
        decreases el.attributes@.len() - i,
    {
        proof {
            assert(Seq::<Visit>::empty() + attribute_visits(el.attributes@.take(i + 1)) =~= (Seq::<Visit>::empty() + attribute_visits(el.attributes@.take(i as int))).push(Visit::Attribute(el.attributes@[i as int])));
        }
        let ghost before: &V = &*v;
        v.visit_attribute(&el.attributes[i]);
        assert(exists|rs: Seq<&mut V>, fs: Seq<&V>|
                (forall|k: int| 0 <= k < rs.len() ==> &*final(#[trigger] rs[k]) == fs[k])
                && #[trigger] visit_steps(visit_called::<V>(), rs, fs, (Seq::<Visit>::empty() + attribute_visits(el.attributes@.take(i as int))).push(Visit::Attribute(el.attributes@[i as int])), &*old(v), &*v)) by {
            let (rs0, fs0) = choose|rs: Seq<&mut V>, fs: Seq<&V>|
                (forall|k: int| 0 <= k < rs.len() ==> &*final(#[trigger] rs[k]) == fs[k])
                && #[trigger] visit_steps(visit_called::<V>(), rs, fs, (Seq::<Visit>::empty() + attribute_visits(el.attributes@.take(i as int))), &*old(v), before);
            let r = choose|r: &mut V| &*r == before && &*final(r) == &*v && call_ensures(V::visit_attribute, (r, &el.attributes@[i as int]), ());
            lemma_visit_steps_push(visit_called::<V>(), rs0, fs0, (Seq::<Visit>::empty() + attribute_visits(el.attributes@.take(i as int))), &*old(v), before, r, Visit::Attribute(el.attributes@[i as int]), &*v);
            assert(forall|k: int| 0 <= k < rs0.push(r).len() ==> &*final(#[trigger] rs0.push(r)[k]) == fs0.push(&*v)[k]);
        }
        i = i + 1;
    }
    proof {
        assert(el.attributes@.take(i as int) =~= el.attributes@);
    }
    let mut j: usize = 0;
    proof {
        assert((Seq::<Visit>::empty() + attribute_visits(el.attributes@)) + directive_visits(el.directives@.take(0)) =~= (Seq::<Visit>::empty() + attribute_visits(el.attributes@)));
    }
    while j < el.directives.len()
        invariant
            j <= el.directives@.len(),
            exists|rs: Seq<&mut V>, fs: Seq<&V>|
                (forall|k: int| 0 <= k < rs.len() ==> &*final(#[trigger] rs[k]) == fs[k])
                && #[trigger] visit_steps(visit_called::<V>(), rs, fs, (Seq::<Visit>::empty() + attribute_visits(el.attributes@)) + directive_visits(el.directives@.take(j as int)), &*old(v), &*v),
        decreases el.directives@.len() - j,
    {
        proof {
            assert((Seq::<Visit>::empty() + attribute_visits(el.attributes@)) + directive_visits(el.directives@.take(j + 1)) =~= ((Seq::<Visit>::empty() + attribute_visits(el.attributes@)) + directive_visits(el.directives@.take(j as int))).push(Visit::Directive(el.directives@[j as int])));
        }
        let ghost before: &V = &*v;
        v.visit_directive(&el.directives[j]);
        assert(exists|rs: Seq<&mut V>, fs: Seq<&V>|
                (forall|k: int| 0 <= k < rs.len() ==> &*final(#[trigger] rs[k]) == fs[k])
                && #[trigger] visit_steps(visit_called::<V>(), rs, fs, ((Seq::<Visit>::empty() + attribute_visits(el.attributes@)) + directive_visits(el.directives@.take(j as int))).push(Visit::Directive(el.directives@[j as int])), &*old(v), &*v)) by {
            let (rs0, fs0) = choose|rs: Seq<&mut V>, fs: Seq<&V>|
                (forall|k: int| 0 <= k < rs.len() ==> &*final(#[trigger] rs[k]) == fs[k])
                && #[trigger] visit_steps(visit_called::<V>(), rs, fs, ((Seq::<Visit>::empty() + attribute_visits(el.attributes@)) + directive_visits(el.directives@.take(j as int))), &*old(v), before);
            let r = choose|r: &mut V| &*r == before && &*final(r) == &*v && call_ensures(V::visit_directive, (r, &el.directives@[j as int]), ());
            lemma_visit_steps_push(visit_called::<V>(), rs0, fs0, ((Seq::<Visit>::empty() + attribute_visits(el.attributes@)) + directive_visits(el.directives@.take(j as int))), &*old(v), before, r, Visit::Directive(el.directives@[j as int]), &*v);
            assert(forall|k: int| 0 <= k < rs0.push(r).len() ==> &*final(#[trigger] rs0.push(r)[k]) == fs0.push(&*v)[k]);
        }
        j = j + 1;
    }
    proof {
        assert(el.directives@.take(j as int) =~= el.directives@);
    }
    let mut k: usize = 0;
    proof {
        assert(((Seq::<Visit>::empty() + attribute_visits(el.attributes@)) + directive_visits(el.directives@)) + html_node_visits(el.children@.take(0)) =~= ((Seq::<Visit>::empty() + attribute_visits(el.attributes@)) + directive_visits(el.directives@)));
    }
    while k < el.children.len()
        invariant
            k <= el.children@.len(),
            exists|rs: Seq<&mut V>, fs: Seq<&V>|
                (forall|k: int| 0 <= k < rs.len() ==> &*final(#[trigger] rs[k]) == fs[k])
                && #[trigger] visit_steps(visit_called::<V>(), rs, fs, ((Seq::<Visit>::empty() + attribute_visits(el.attributes@)) + directive_visits(el.directives@)) + html_node_visits(el.children@.take(k as int)), &*old(v), &*v),
        decreases el.children@.len() - k,
    {
        proof {
            assert(((Seq::<Visit>::empty() + attribute_visits(el.attributes@)) + directive_visits(el.directives@)) + html_node_visits(el.children@.take(k + 1)) =~= (((Seq::<Visit>::empty() + attribute_visits(el.attributes@)) + directive_visits(el.directives@)) + html_node_visits(el.children@.take(k as int))).push(Visit::HtmlNode(el.children@[k as int])));
        }
        let ghost before: &V = &*v;
        v.visit_html_node(&el.children[k]);
        assert(exists|rs: Seq<&mut V>, fs: Seq<&V>|
                (forall|k: int| 0 <= k < rs.len() ==> &*final(#[trigger] rs[k]) == fs[k])
                && #[trigger] visit_steps(visit_called::<V>(), rs, fs, (((Seq::<Visit>::empty() + attribute_visits(el.attributes@)) + directive_visits(el.directives@)) + html_node_visits(el.children@.take(k as int))).push(Visit::HtmlNode(el.children@[k as int])), &*old(v), &*v)) by {
            let (rs0, fs0) = choose|rs: Seq<&mut V>, fs: Seq<&V>|
                (forall|k: int| 0 <= k < rs.len() ==> &*final(#[trigger] rs[k]) == fs[k])
                && #[trigger] visit_steps(visit_called::<V>(), rs, fs, (((Seq::<Visit>::empty() + attribute_visits(el.attributes@)) + directive_visits(el.directives@)) + html_node_visits(el.children@.take(k as int))), &*old(v), before);
            let r = choose|r: &mut V| &*r == before && &*final(r) == &*v && call_ensures(V::visit_html_node, (r, &el.children@[k as int]), ());
            lemma_visit_steps_push(visit_called::<V>(), rs0, fs0, (((Seq::<Visit>::empty() + attribute_visits(el.attributes@)) + directive_visits(el.directives@)) + html_node_visits(el.children@.take(k as int))), &*old(v), before, r, Visit::HtmlNode(el.children@[k as int]), &*v);
            assert(forall|k: int| 0 <= k < rs0.push(r).len() ==> &*final(#[trigger] rs0.push(r)[k]) == fs0.push(&*v)[k]);
        }
        k = k + 1;
    }
    proof {
        assert(el.children@.take(k as int) =~= el.children@);
    }
    proof {
        assert(((Seq::<Visit>::empty() + attribute_visits(el.attributes@)) + directive_visits(el.directives@)) + html_node_visits(el.children@) =~= element_visits(*el));
    }
}

/// Walk an [`IfBranch`]: visit each child node (not the condition).
pub fn walk_if_branch<V: Visitor + ?Sized>(v: &mut V, branch: &IfBranch)
    ensures
        exists|rs: Seq<&mut V>, fs: Seq<&V>|
            (forall|k: int| 0 <= k < rs.len() ==> &*final(#[trigger] rs[k]) == fs[k])
            && #[trigger] visit_steps(visit_called::<V>(), rs, fs, html_node_visits(branch.children@), &*old(v), &*final(v)),
{
    visit_children(v, &branch.children);
}

/// Walk an [`Attribute`]: visit each value segment (text or expression).
pub fn walk_attribute<V: Visitor + ?Sized>(v: &mut V, attr: &Attribute)
    ensures
        exists|rs: Seq<&mut V>, fs: Seq<&V>|
            (forall|k: int| 0 <= k < rs.len() ==> &*final(#[trigger] rs[k]) == fs[k])
            && #[trigger] visit_steps(visit_called::<V>(), rs, fs, template_node_visits(attr.value@), &*old(v), &*final(v)),
{
    proof {
        assert(visit_steps(visit_called::<V>(), Seq::<&mut V>::empty(), Seq::<&V>::empty(), Seq::<Visit>::empty(), &*old(v), &*v));
    }
    let mut i: usize = 0;
    proof {
        assert(Seq::<Visit>::empty() + template_node_visits(attr.value@.take(0)) =~= Seq::<Visit>::empty());
    }
    while i < attr.value.len()
        invariant
            i <= attr.value@.len(),
            exists|rs: Seq<&mut V>, fs: Seq<&V>|
                (forall|k: int| 0 <= k < rs.len() ==> &*final(#[trigger] rs[k]) == fs[k])
                && #[trigger] visit_steps(visit_called::<V>(), rs, fs, Seq::<Visit>::empty() + template_node_visits(attr.value@.take(i as int)), &*old(v), &*v),
        decreases attr.value@.len() - i,
    {
        proof {
            assert(Seq::<Visit>::empty() + template_node_visits(attr.value@.take(i + 1)) =~= (Seq::<Visit>::empty() + template_node_visits(attr.value@.take(i as int))).push(Visit::TemplateNode(attr.value@[i as int])));
        }
        let ghost before: &V = &*v;
        v.visit_template_node(&attr.value[i]);
        assert(exists|rs: Seq<&mut V>, fs: Seq<&V>|
                (forall|k: int| 0 <= k < rs.len() ==> &*final(#[trigger] rs[k]) == fs[k])
                && #[trigger] visit_steps(visit_called::<V>(), rs, fs, (Seq::<Visit>::empty() + template_node_visits(attr.value@.take(i as int))).push(Visit::TemplateNode(attr.value@[i as int])), &*old(v), &*v)) by {
            let (rs0, fs0) = choose|rs: Seq<&mut V>, fs: Seq<&V>|
                (forall|k: int| 0 <= k < rs.len() ==> &*final(#[trigger] rs[k]) == fs[k])
                && #[trigger] visit_steps(visit_called::<V>(), rs, fs, (Seq::<Visit>::empty() + template_node_visits(attr.value@.take(i as int))), &*old(v), before);
            let r = choose|r: &mut V| &*r == before && &*final(r) == &*v && call_ensures(V::visit_template_node, (r, &attr.value@[i as int]), ());
            lemma_visit_steps_push(visit_called::<V>(), rs0, fs0, (Seq::<Visit>::empty() + template_node_visits(attr.value@.take(i as int))), &*old(v), before, r, Visit::TemplateNode(attr.value@[i as int]), &*v);
            assert(forall|k: int| 0 <= k < rs0.push(r).len() ==> &*final(#[trigger] rs0.push(r)[k]) == fs0.push(&*v)[k]);
        }
        i = i + 1;
    }
    proof {
        assert(attr.value@.take(i as int) =~= attr.value@);
    }
    proof {
        assert(Seq::<Visit>::empty() + template_node_visits(attr.value@) =~= template_node_visits(attr.value@));
    }
}

} // verus!
