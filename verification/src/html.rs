//! Streaming HTML rewriting through `lol_html`.
//!
//! The rewriter parses the document and calls back, for every element and for
//! every text chunk inside the elements matched by a text selector, into the
//! verified handlers of this crate. An element is seen through its tag name and
//! its attribute list; the handlers read and change the attributes through the
//! wrappers below, whose contracts describe `lol_html`'s attribute methods.
use vstd::prelude::*;
use std::borrow::Cow;
use lol_html::html_content::{ContentType, Element, TextChunk};
use lol_html::errors::AttributeNameError;
use lol_html::{ElementContentHandlers, RewriteStrSettings, Selector};
use crate::text::{ascii_lower, chars_of, lower_ascii};

verus! {

broadcast use vstd::string::group_string_axioms;

// ───────────────────────────── elements ─────────────────────────────

/// An element the rewriter is visiting. `lol_html`'s `Element` is generic
/// over its `HandlerTypes` trait, which a type declaration here cannot take
/// as a bound, so the element is held, opaque, behind this type; the names
/// and wrappers below say what the handlers read and change of it.
#[verifier::external_body]
pub struct HtmlElement<'a, 'r, 't> {
    pub(crate) inner: &'a mut Element<'r, 't>,
}

#[verifier::external_type_specification]
#[verifier::external_body]
pub struct ExTextChunk<'i>(TextChunk<'i>);

#[verifier::external_type_specification]
#[verifier::external_body]
pub struct ExAttributeNameError(AttributeNameError);

/// The element's tag name, ASCII-lowercased.
pub uninterp spec fn element_tag(el: HtmlElement) -> Seq<char>;

/// The element's attributes in document order: ASCII-lowercased names with their values.
pub uninterp spec fn element_attrs(el: HtmlElement) -> Seq<(Seq<char>, Seq<char>)>;

/// Whether content can be inserted into the element (it is not a void element).
pub uninterp spec fn element_can_have_content(el: HtmlElement) -> bool;

/// Markup inserted right after the start tag so far.
pub uninterp spec fn element_prepended(el: HtmlElement) -> Seq<char>;

/// Markup inserted right before the end tag so far.
pub uninterp spec fn element_appended(el: HtmlElement) -> Seq<char>;

/// A name `lol_html` accepts for an attribute: not empty, and free of white
/// space, `/`, `>` and `=`.
pub open spec fn valid_attr_name(n: Seq<char>) -> bool {
    &&& n.len() > 0
    &&& forall|i: int| 0 <= i < n.len() ==> !(#[trigger] n[i] == ' ' || n[i] == '\n' || n[i] == '\r'
        || n[i] == '\t' || n[i] == '\x0C' || n[i] == '/' || n[i] == '>' || n[i] == '=')
}

/// The first attribute (from `i` on) whose name is `n`.
pub open spec fn attr_index_from(attrs: Seq<(Seq<char>, Seq<char>)>, n: Seq<char>, i: int) -> Option<int>
    decreases attrs.len() - i,
{
    if i < 0 || i >= attrs.len() {
        None
    } else if attrs[i].0 == n {
        Some(i)
    } else {
        attr_index_from(attrs, n, i + 1)
    }
}

pub open spec fn attr_index(attrs: Seq<(Seq<char>, Seq<char>)>, n: Seq<char>) -> Option<int> {
    attr_index_from(attrs, n, 0)
}

/// `Element::get_attribute`: the value of the first attribute named `name`
/// (ASCII case-insensitively); none for a name `lol_html` rejects.
pub open spec fn attr_get(attrs: Seq<(Seq<char>, Seq<char>)>, name: Seq<char>) -> Option<Seq<char>> {
    if !valid_attr_name(name) {
        None
    } else {
        match attr_index(attrs, ascii_lower(name)) {
            Some(i) => Some(attrs[i].1),
            None => None,
        }
    }
}

/// `Element::set_attribute` for a valid name: the first attribute named `name`
/// takes the value, or a new attribute is added at the end.
pub open spec fn attr_set(attrs: Seq<(Seq<char>, Seq<char>)>, name: Seq<char>, value: Seq<char>) -> Seq<(Seq<char>, Seq<char>)> {
    match attr_index(attrs, ascii_lower(name)) {
        Some(i) => attrs.update(i, (attrs[i].0, value)),
        None => attrs.push((ascii_lower(name), value)),
    }
}

/// `Element::remove_attribute`: every attribute named `name` goes.
pub open spec fn attr_remove(attrs: Seq<(Seq<char>, Seq<char>)>, name: Seq<char>) -> Seq<(Seq<char>, Seq<char>)> {
    if !valid_attr_name(name) {
        attrs
    } else {
        attrs.filter(|a: (Seq<char>, Seq<char>)| a.0 != ascii_lower(name))
    }
}

/// The element is otherwise unchanged: same tag, same insertions.
pub open spec fn same_frame(a: HtmlElement, b: HtmlElement) -> bool {
    &&& element_tag(a) == element_tag(b)
    &&& element_can_have_content(a) == element_can_have_content(b)
    &&& element_prepended(a) == element_prepended(b)
    &&& element_appended(a) == element_appended(b)
}

/// `Element::tag_name`: the tag name, lowercased.
#[verifier::external_body]
pub(crate) fn tag_name(el: &HtmlElement) -> (r: String)
    ensures r@ == element_tag(*el),
{
    el.inner.tag_name()
}

/// `Element::get_attribute`.
#[verifier::external_body]
pub(crate) fn get_attribute(el: &HtmlElement, name: &str) -> (r: Option<String>)
    ensures
        r matches Some(v) ==> attr_get(element_attrs(*el), name@) == Some(v@),
        r is None ==> attr_get(element_attrs(*el), name@) is None,
{
    el.inner.get_attribute(name)
}

/// `Element::set_attribute`: fails only for a name `lol_html` rejects, and
/// then changes nothing.
#[verifier::external_body]
pub(crate) fn set_attribute(el: &mut HtmlElement, name: &str, value: &str) -> (r: Result<(), AttributeNameError>)
    ensures
        r is Ok <==> valid_attr_name(name@),
        r is Ok ==> element_attrs(*final(el)) == attr_set(element_attrs(*old(el)), name@, value@),
        r is Err ==> element_attrs(*final(el)) == element_attrs(*old(el)),
        same_frame(*final(el), *old(el)),
{
    el.inner.set_attribute(name, value)
}

/// `Element::remove_attribute`.
#[verifier::external_body]
pub(crate) fn remove_attribute(el: &mut HtmlElement, name: &str)
    ensures
        element_attrs(*final(el)) == attr_remove(element_attrs(*old(el)), name@),
        same_frame(*final(el), *old(el)),
{
    el.inner.remove_attribute(name)
}

/// `Element::prepend` with HTML content: the markup goes right after the
/// start tag, before anything prepended earlier; nothing happens for a void element.
#[verifier::external_body]
pub(crate) fn prepend_html(el: &mut HtmlElement, content: &str)
    ensures
        element_attrs(*final(el)) == element_attrs(*old(el)),
        element_tag(*final(el)) == element_tag(*old(el)),
        element_can_have_content(*final(el)) == element_can_have_content(*old(el)),
        element_appended(*final(el)) == element_appended(*old(el)),
        element_prepended(*final(el)) == if element_can_have_content(*old(el)) {
            content@ + element_prepended(*old(el))
        } else {
            element_prepended(*old(el))
        },
{
    el.inner.prepend(content, ContentType::Html)
}

/// `Element::append` with HTML content: the markup goes right before the end
/// tag, after anything appended earlier; nothing happens for a void element.
#[verifier::external_body]
pub(crate) fn append_html(el: &mut HtmlElement, content: &str)
    ensures
        element_attrs(*final(el)) == element_attrs(*old(el)),
        element_tag(*final(el)) == element_tag(*old(el)),
        element_can_have_content(*final(el)) == element_can_have_content(*old(el)),
        element_prepended(*final(el)) == element_prepended(*old(el)),
        element_appended(*final(el)) == if element_can_have_content(*old(el)) {
            element_appended(*old(el)) + content@
        } else {
            element_appended(*old(el))
        },
{
    el.inner.append(content, ContentType::Html)
}

// ───────────────────────────── text chunks ─────────────────────────────

/// The text of a chunk as the parser delivered it.
pub uninterp spec fn chunk_text(t: TextChunk) -> Seq<char>;

/// The text that replaces the chunk in the output, if it was replaced.
pub uninterp spec fn chunk_replacement(t: TextChunk) -> Option<Seq<char>>;

/// `TextChunk::as_str`, copied.
#[verifier::external_body]
pub(crate) fn chunk_string(t: &TextChunk) -> (r: String)
    ensures r@ == chunk_text(*t),
{
    t.as_str().to_string()
}

/// `TextChunk::replace` with text content (escaped on output).
#[verifier::external_body]
pub(crate) fn replace_chunk(t: &mut TextChunk, content: &str)
    ensures
        chunk_text(*final(t)) == chunk_text(*old(t)),
        chunk_replacement(*final(t)) == Some(content@),
{
    t.replace(content, ContentType::Text)
}


// ───────────────────────────── attribute laws ─────────────────────────────

proof fn lemma_index_found(attrs: Seq<(Seq<char>, Seq<char>)>, n: Seq<char>, i: int, k: int)
    requires
        0 <= i <= k < attrs.len(),
        attrs[k].0 == n,
        forall|j: int| i <= j < k ==> attrs[j].0 != n,
    ensures
        attr_index_from(attrs, n, i) == Some(k),
    decreases k - i,
{
    if i < k {
        lemma_index_found(attrs, n, i + 1, k);
    }
}

proof fn lemma_index_some(attrs: Seq<(Seq<char>, Seq<char>)>, n: Seq<char>, i: int)
    requires
        attr_index_from(attrs, n, i) is Some,
    ensures
        ({
            let k = attr_index_from(attrs, n, i)->0;
            &&& i <= k < attrs.len()
            &&& attrs[k].0 == n
            &&& forall|j: int| i <= j < k ==> attrs[j].0 != n
        }),
    decreases attrs.len() - i,
{
    if 0 <= i < attrs.len() && attrs[i].0 != n {
        lemma_index_some(attrs, n, i + 1);
    }
}

proof fn lemma_index_none(attrs: Seq<(Seq<char>, Seq<char>)>, n: Seq<char>, i: int)
    requires
        0 <= i,
        attr_index_from(attrs, n, i) is None,
    ensures
        forall|j: int| i <= j < attrs.len() ==> attrs[j].0 != n,
    decreases attrs.len() - i,
{
    if i < attrs.len() {
        lemma_index_none(attrs, n, i + 1);
    }
}

/// Two attribute lists with the same names find a name at the same place.
proof fn lemma_index_same_names(a: Seq<(Seq<char>, Seq<char>)>, b: Seq<(Seq<char>, Seq<char>)>, n: Seq<char>, i: int)
    requires
        a.len() == b.len(),
        forall|j: int| 0 <= j < a.len() ==> a[j].0 == b[j].0,
    ensures
        attr_index_from(a, n, i) == attr_index_from(b, n, i),
    decreases a.len() - i,
{
    if 0 <= i < a.len() {
        lemma_index_same_names(a, b, n, i + 1);
    }
}

/// An attribute of another name added at the end does not change where a name is found.
proof fn lemma_index_push(a: Seq<(Seq<char>, Seq<char>)>, x: (Seq<char>, Seq<char>), n: Seq<char>, i: int)
    requires
        0 <= i,
        x.0 != n,
    ensures
        attr_index_from(a.push(x), n, i) == attr_index_from(a, n, i),
    decreases a.len() + 1 - i,
{
    if i < a.len() {
        lemma_index_push(a, x, n, i + 1);
    } else if i == a.len() {
        assert(attr_index_from(a.push(x), n, i + 1) is None);
    }
}

/// Reading an attribute right after setting it gives the value that was set.
pub proof fn lemma_attr_set_then_get(attrs: Seq<(Seq<char>, Seq<char>)>, name: Seq<char>, value: Seq<char>)
    requires
        valid_attr_name(name),
    ensures
        attr_get(attr_set(attrs, name, value), name) == Some(value),
{
    let n = ascii_lower(name);
    let r = attr_set(attrs, name, value);
    match attr_index(attrs, n) {
        Some(k) => {
            lemma_index_some(attrs, n, 0);
            lemma_index_same_names(attrs, r, n, 0);
        },
        None => {
            lemma_index_none(attrs, n, 0);
            lemma_index_found(r, n, 0, attrs.len() as int);
        },
    }
}

/// Setting an attribute leaves every attribute of another name as it was.
pub proof fn lemma_attr_set_keeps_others(attrs: Seq<(Seq<char>, Seq<char>)>, name: Seq<char>, value: Seq<char>, other: Seq<char>)
    requires
        valid_attr_name(name),
        ascii_lower(other) != ascii_lower(name),
    ensures
        attr_get(attr_set(attrs, name, value), other) == attr_get(attrs, other),
{
    let n = ascii_lower(name);
    let m = ascii_lower(other);
    let r = attr_set(attrs, name, value);
    match attr_index(attrs, n) {
        Some(k) => {
            lemma_index_some(attrs, n, 0);
            lemma_index_same_names(attrs, r, m, 0);
            if attr_index(attrs, m) is Some {
                lemma_index_some(attrs, m, 0);
            }
        },
        None => {
            lemma_index_push(attrs, (n, value), m, 0);
            if attr_index(attrs, m) is Some {
                lemma_index_some(attrs, m, 0);
            }
        },
    }
}

/// After an attribute is removed, reading it finds nothing.
pub proof fn lemma_attr_remove_then_get(attrs: Seq<(Seq<char>, Seq<char>)>, name: Seq<char>)
    ensures
        attr_get(attr_remove(attrs, name), name) is None,
{
    if valid_attr_name(name) {
        let n = ascii_lower(name);
        let pred = |a: (Seq<char>, Seq<char>)| a.0 != n;
        let r = attrs.filter(pred);
        if attr_index(r, n) is Some {
            lemma_index_some(r, n, 0);
            let k = attr_index(r, n)->0;
            attrs.lemma_filter_pred(pred, k);
        }
    }
}


/// The value of the first attribute named exactly `n`.
pub open spec fn attr_first(attrs: Seq<(Seq<char>, Seq<char>)>, n: Seq<char>) -> Option<Seq<char>> {
    match attr_index(attrs, n) {
        Some(i) => Some(attrs[i].1),
        None => None,
    }
}

proof fn lemma_first_push(c: Seq<(Seq<char>, Seq<char>)>, y: (Seq<char>, Seq<char>), m: Seq<char>)
    ensures
        attr_first(c.push(y), m) == match attr_first(c, m) {
            Some(v) => Some(v),
            None => if y.0 == m { Some(y.1) } else { None },
        },
{
    let d = c.push(y);
    if attr_index(c, m) is Some {
        lemma_index_some(c, m, 0);
        let k = attr_index(c, m)->0;
        assert forall|j: int| 0 <= j < k implies d[j].0 != m by {
            assert(d[j] == c[j]);
        }
        lemma_index_found(d, m, 0, k);
    } else {
        lemma_index_none(c, m, 0);
        if y.0 == m {
            assert forall|j: int| 0 <= j < c.len() implies d[j].0 != m by {
                assert(d[j] == c[j]);
            }
            lemma_index_found(d, m, 0, c.len() as int);
        } else {
            lemma_index_push(c, y, m, 0);
        }
    }
}

proof fn lemma_filter_keeps_first(a: Seq<(Seq<char>, Seq<char>)>, n: Seq<char>, m: Seq<char>)
    requires
        m != n,
    ensures
        attr_first(a.filter(|x: (Seq<char>, Seq<char>)| x.0 != n), m) == attr_first(a, m),
    decreases a.len(),
{
    reveal(Seq::filter);
    let pred = |x: (Seq<char>, Seq<char>)| x.0 != n;
    if a.len() > 0 {
        let b = a.drop_last();
        let x = a.last();
        lemma_filter_keeps_first(b, n, m);
        assert(a == b.push(x));
        lemma_first_push(b, x, m);
        if pred(x) {
            lemma_first_push(b.filter(pred), x, m);
        }
    }
}

/// Removing an attribute leaves every attribute of another name as it was.
pub proof fn lemma_attr_remove_keeps_others(attrs: Seq<(Seq<char>, Seq<char>)>, name: Seq<char>, other: Seq<char>)
    requires
        ascii_lower(other) != ascii_lower(name),
    ensures
        attr_get(attr_remove(attrs, name), other) == attr_get(attrs, other),
{
    if valid_attr_name(name) {
        lemma_filter_keeps_first(attrs, ascii_lower(name), ascii_lower(other));
    }
}


/// Removing an attribute never brings one back: what was absent stays absent.
pub proof fn lemma_attr_remove_never_adds(attrs: Seq<(Seq<char>, Seq<char>)>, name: Seq<char>, other: Seq<char>)
    requires
        attr_get(attrs, other) is None,
    ensures
        attr_get(attr_remove(attrs, name), other) is None,
{
    if ascii_lower(other) == ascii_lower(name) {
        if valid_attr_name(other) {
            assert(valid_attr_name(name) ==> attr_get(attr_remove(attrs, name), name) is None) by {
                lemma_attr_remove_then_get(attrs, name);
            }
        }
    } else {
        lemma_attr_remove_keeps_others(attrs, name, other);
    }
}

} // verus!
