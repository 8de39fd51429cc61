//! HTML body actions on the elements that a CSS selector finds.
use vstd::prelude::*;

pub mod body_after;
pub mod body_append;
pub mod body_before;
pub mod body_capture;
pub mod body_prepend;
pub mod body_remove;
pub mod body_replace;

use crate::api::HTMLBodyFilter;
use crate::filter::body_action::strings_view;
use crate::text::{opt_view, spec_starts_with, starts_with};

pub use body_after::BodyAfter;
pub use body_append::BodyAppend;
pub use body_before::BodyBefore;
pub use body_capture::{BodyCapture, CaptureRegistry};
pub use body_prepend::BodyPrepend;
pub use body_remove::BodyRemove;
pub use body_replace::BodyReplace;

verus! {

/// ` > `: a child step of a CSS selector.
pub open spec fn child_step() -> Seq<char> {
    seq![' ', '>', ' ']
}

/// The element names joined into a CSS selector, each a child of the one before it.
pub open spec fn selector_path(parts: Seq<Seq<char>>) -> Seq<char>
    decreases parts.len(),
{
    if parts.len() == 0 {
        Seq::<char>::empty()
    } else if parts.len() == 1 {
        parts[0]
    } else {
        selector_path(parts.drop_last()) + child_step() + parts.last()
    }
}

/// The path without its last element where the selector begins with that element's name.
pub open spec fn path_before_selector(tree: Seq<Seq<char>>, selector: Seq<char>) -> Seq<Seq<char>> {
    if tree.len() > 0 && spec_starts_with(selector, tree.last()) {
        tree.drop_last()
    } else {
        tree
    }
}

/// The CSS selector of an element path and an optional selector under it.
pub open spec fn css_selector_of(tree: Seq<Seq<char>>, css_selector: Option<Seq<char>>) -> Seq<char> {
    match css_selector {
        Some(s) => if s.len() > 0 {
            if tree.len() == 0 {
                s
            } else {
                selector_path(path_before_selector(tree, s)) + child_step() + s
            }
        } else {
            selector_path(tree)
        },
        None => selector_path(tree),
    }
}

/// The selector of the element to append to, and the one of the elements that prevent it.
pub open spec fn append_css_selectors_of(tree: Seq<Seq<char>>, css_selector: Option<Seq<char>>) -> (Seq<char>, Option<Seq<char>>) {
    match css_selector {
        Some(s) => if s.len() > 0 {
            let base = selector_path(path_before_selector(tree, s));
            (base, Some(base + child_step() + s))
        } else {
            (selector_path(tree), None)
        },
        None => (selector_path(tree), None),
    }
}

/// The first `n` element names joined into a CSS selector.
fn join_path(parts: &[String], n: usize) -> (res: String)
    requires
        n <= parts@.len(),
    ensures
        res@ == selector_path(strings_view(parts@).take(n as int)),
{
    let ghost sv = strings_view(parts@);
    let mut out = String::new();
    let mut i: usize = 0;
    assert(sv.take(0) =~= Seq::<Seq<char>>::empty());
    while i < n
        invariant
            i <= n <= parts@.len(),
            sv == strings_view(parts@),
            out@ == selector_path(sv.take(i as int)),
        decreases n - i,
    {
        proof {
            assert(sv.take(i + 1).drop_last() =~= sv.take(i as int));
            assert(sv.take(i + 1).last() == parts@[i as int]@);
        }
        if i > 0 {
            out.append(" > ");
            proof {
                reveal_strlit(" > ");
                assert(" > "@ =~= child_step());
            }
        } else {
            assert(out@ =~= Seq::<char>::empty());
        }
        let ghost before = out@;
        out.append(parts[i].as_str());
        proof {
            if i == 0 {
                assert(out@ =~= sv.take(1)[0]);
            }
        }
        i = i + 1;
    }
    out
}

/// The CSS selector for an element path and an optional selector under it: the selector
/// follows the path, which loses its last element when the selector begins with its name.
pub fn build_css_selector(element_tree: &[String], css_selector: &Option<String>) -> (res: String)
    ensures
        res@ == css_selector_of(strings_view(element_tree@), opt_view(*css_selector)),
{
    let ghost tree = strings_view(element_tree@);
    assert(tree.take(tree.len() as int) =~= tree);
    let n = element_tree.len();
    match css_selector {
        Some(selector) => {
            if !selector.as_str().is_empty() {
                if n == 0 {
                    return selector.clone();
                }
                let mut kept = n;
                if starts_with(selector.as_str(), element_tree[n - 1].as_str()) {
                    kept = n - 1;
                    assert(tree.take(kept as int) =~= tree.drop_last());
                }
                let mut out = join_path(element_tree, kept);
                out.append(" > ");
                out.append(selector.as_str());
                proof {
                    reveal_strlit(" > ");
                    assert(" > "@ =~= child_step());
                }
                return out;
            }
            join_path(element_tree, n)
        },
        None => join_path(element_tree, n),
    }
}

/// The selector of the element to append to, and, with a selector under the path, the
/// one of the elements whose presence prevents the append.
pub fn build_append_css_selector(element_tree: &[String], css_selector: &Option<String>) -> (res: (String, Option<String>))
    ensures
        (res.0@, opt_view(res.1)) == append_css_selectors_of(strings_view(element_tree@), opt_view(*css_selector)),
{
    let ghost tree = strings_view(element_tree@);
    assert(tree.take(tree.len() as int) =~= tree);
    let n = element_tree.len();
    match css_selector {
        Some(selector) => {
            if !selector.as_str().is_empty() {
                let mut kept = n;
                if n > 0 && starts_with(selector.as_str(), element_tree[n - 1].as_str()) {
                    kept = n - 1;
                    assert(tree.take(kept as int) =~= tree.drop_last());
                }
                let base = join_path(element_tree, kept);
                let mut checker = join_path(element_tree, kept);
                checker.append(" > ");
                checker.append(selector.as_str());
                proof {
                    reveal_strlit(" > ");
                    assert(" > "@ =~= child_step());
                }
                return (base, Some(checker));
            }
            (join_path(element_tree, n), None)
        },
        None => (join_path(element_tree, n), None),
    }
}

/// One of the HTML body actions.
#[derive(Debug)]
pub enum HtmlBodyVisitor {
    Append(BodyAppend),
    Prepend(BodyPrepend),
    Replace(BodyReplace),
    Capture(BodyCapture),
    Remove(BodyRemove),
    After(BodyAfter),
    Before(BodyBefore),
}

/// The inner value of a filter: its own where it has one, its value otherwise.
pub open spec fn inner_value_of(inner_value: Option<String>, value: String) -> Seq<char> {
    match inner_value {
        Some(v) => v@,
        None => value@,
    }
}

/// Whether an HTML body filter describes an action: not where a filter on an element path
/// has an empty selector.
pub open spec fn visitor_exists(filter: HTMLBodyFilter) -> bool {
    match filter {
        HTMLBodyFilter::PrependLegacy(f) => css_selector_of(strings_view(f.element_tree@), opt_view(f.css_selector)).len() > 0,
        HTMLBodyFilter::ReplaceLegacy(f) => css_selector_of(strings_view(f.element_tree@), opt_view(f.css_selector)).len() > 0,
        _ => true,
    }
}

impl HtmlBodyVisitor {
    /// The action that an HTML body filter describes; `None` for a filter on an element
    /// path whose selector comes out empty.
    pub fn new(filter: HTMLBodyFilter) -> (res: Option<HtmlBodyVisitor>)
        ensures
            res is Some <==> visitor_exists(filter),
            match filter {
                HTMLBodyFilter::PrependLegacy(f) => {
                    let css = css_selector_of(strings_view(f.element_tree@), opt_view(f.css_selector));
                    if css.len() == 0 {
                        res is None
                    } else {
                        res matches Some(HtmlBodyVisitor::Prepend(p)) && p.made_of(
                            css,
                            f.value@,
                            inner_value_of(f.inner_value, f.value),
                            f.id,
                            f.target_hash,
                        )
                    }
                },
                HTMLBodyFilter::AppendLegacy(f) => {
                    let (css, ignore) = append_css_selectors_of(strings_view(f.element_tree@), opt_view(f.css_selector));
                    res matches Some(HtmlBodyVisitor::Append(a)) && a.made_of(
                        css,
                        ignore,
                        f.value@,
                        inner_value_of(f.inner_value, f.value),
                        f.id,
                        f.target_hash,
                    )
                },
                HTMLBodyFilter::ReplaceLegacy(f) => {
                    let css = css_selector_of(strings_view(f.element_tree@), opt_view(f.css_selector));
                    if css.len() == 0 {
                        res is None
                    } else {
                        res matches Some(HtmlBodyVisitor::Replace(r)) && r.made_of(
                            css,
                            f.value@,
                            inner_value_of(f.inner_value, f.value),
                            f.id,
                            f.target_hash,
                        )
                    }
                },
                HTMLBodyFilter::Append(f) => res matches Some(HtmlBodyVisitor::Append(a)) && a.made_of(
                    f.css_selector@,
                    opt_view(f.ignore_css_selector),
                    f.value@,
                    inner_value_of(f.inner_value, f.value),
                    f.id,
                    f.target_hash,
                ),
                HTMLBodyFilter::Prepend(f) => res matches Some(HtmlBodyVisitor::Prepend(p)) && p.made_of(
                    f.css_selector@,
                    f.value@,
                    inner_value_of(f.inner_value, f.value),
                    f.id,
                    f.target_hash,
                ),
                HTMLBodyFilter::Replace(f) => res matches Some(HtmlBodyVisitor::Replace(r)) && r.made_of(
                    f.css_selector@,
                    f.value@,
                    inner_value_of(f.inner_value, f.value),
                    f.id,
                    f.target_hash,
                ),
                HTMLBodyFilter::After(f) => res matches Some(HtmlBodyVisitor::After(a)) && a.made_of(
                    f.css_selector@,
                    f.value@,
                    inner_value_of(f.inner_value, f.value),
                    f.id,
                    f.target_hash,
                ),
                HTMLBodyFilter::Before(f) => res matches Some(HtmlBodyVisitor::Before(b)) && b.made_of(
                    f.css_selector@,
                    f.value@,
                    inner_value_of(f.inner_value, f.value),
                    f.id,
                    f.target_hash,
                ),
                HTMLBodyFilter::Remove(f) => res matches Some(HtmlBodyVisitor::Remove(r)) && r.made_of(
                    f.css_selector@,
                    f.id,
                    f.target_hash,
                ),
            },
    {
        match filter {
            HTMLBodyFilter::PrependLegacy(filter) => {
                let css_selector = build_css_selector(filter.element_tree.as_slice(), &filter.css_selector);
                if css_selector.as_str().is_empty() {
                    return None;
                }
                let inner = inner_or_value(&filter.inner_value, &filter.value);
                Some(HtmlBodyVisitor::Prepend(BodyPrepend::new(css_selector, filter.value, inner, filter.id, filter.target_hash)))
            },
            HTMLBodyFilter::AppendLegacy(filter) => {
                let (css_selector, css_selector_ignore) = build_append_css_selector(
                    filter.element_tree.as_slice(),
                    &filter.css_selector,
                );
                let inner = inner_or_value(&filter.inner_value, &filter.value);
                Some(
                    HtmlBodyVisitor::Append(
                        BodyAppend::new(css_selector, css_selector_ignore, filter.value, inner, filter.id, filter.target_hash),
                    ),
                )
            },
            HTMLBodyFilter::ReplaceLegacy(filter) => {
                let css_selector = build_css_selector(filter.element_tree.as_slice(), &filter.css_selector);
                if css_selector.as_str().is_empty() {
                    return None;
                }
                let inner = inner_or_value(&filter.inner_value, &filter.value);
                Some(HtmlBodyVisitor::Replace(BodyReplace::new(css_selector, filter.value, inner, filter.id, filter.target_hash)))
            },
            HTMLBodyFilter::Append(filter) => {
                let inner = inner_or_value(&filter.inner_value, &filter.value);
                Some(
                    HtmlBodyVisitor::Append(
                        BodyAppend::new(
                            filter.css_selector,
                            filter.ignore_css_selector,
                            filter.value,
                            inner,
                            filter.id,
                            filter.target_hash,
                        ),
                    ),
                )
            },
            HTMLBodyFilter::Prepend(filter) => {
                let inner = inner_or_value(&filter.inner_value, &filter.value);
                Some(HtmlBodyVisitor::Prepend(BodyPrepend::new(filter.css_selector, filter.value, inner, filter.id, filter.target_hash)))
            },
            HTMLBodyFilter::Replace(filter) => {
                let inner = inner_or_value(&filter.inner_value, &filter.value);
                Some(HtmlBodyVisitor::Replace(BodyReplace::new(filter.css_selector, filter.value, inner, filter.id, filter.target_hash)))
            },
            HTMLBodyFilter::After(filter) => {
                let inner = inner_or_value(&filter.inner_value, &filter.value);
                Some(HtmlBodyVisitor::After(BodyAfter::new(filter.css_selector, filter.value, inner, filter.id, filter.target_hash)))
            },
            HTMLBodyFilter::Before(filter) => {
                let inner = inner_or_value(&filter.inner_value, &filter.value);
                Some(HtmlBodyVisitor::Before(BodyBefore::new(filter.css_selector, filter.value, inner, filter.id, filter.target_hash)))
            },
            HTMLBodyFilter::Remove(filter) => Some(
                HtmlBodyVisitor::Remove(BodyRemove::new(filter.css_selector, filter.id, filter.target_hash)),
            ),
        }
    }
}

/// The inner value where there is one, the value otherwise.
fn inner_or_value(inner_value: &Option<String>, value: &String) -> (res: String)
    ensures
        res@ == inner_value_of(*inner_value, *value),
{
    match inner_value {
        Some(v) => v.clone(),
        None => value.clone(),
    }
}

} // verus!
