//! XML documents: a tree of elements, reading and replacing the text of the element that a
//! path names, and the round trip through the `xmltree` crate.

use vstd::prelude::*;
use crate::text;

verus! {

// ---------------------------------------------------------------------------
// Documents
// ---------------------------------------------------------------------------

/// A node below an element.
pub enum XmlNode {
    Element(XmlElement),
    Comment(String),
    CData(String),
    Text(String),
    ProcessingInstruction(String, Option<String>),
}

/// An element of a document.
pub struct XmlElement {
    pub prefix: Option<String>,
    pub namespace: Option<String>,
    /// The namespaces in scope, each with its prefix; a later entry replaces an earlier one.
    pub namespaces: Option<Vec<(String, String)>>,
    /// The name without its prefix.
    pub name: String,
    /// Attribute names and values; a later entry replaces an earlier one of that name.
    pub attributes: Vec<(String, String)>,
    pub children: Vec<XmlNode>,
}

/// What an [`XmlNode`] stands for.
pub enum XmlBranch {
    Element(XmlTree),
    Comment(Seq<char>),
    CData(Seq<char>),
    Text(Seq<char>),
    ProcessingInstruction(Seq<char>, Option<Seq<char>>),
}

/// What an [`XmlElement`] stands for.
pub struct XmlTree {
    pub prefix: Option<Seq<char>>,
    pub namespace: Option<Seq<char>>,
    pub namespaces: Option<Map<Seq<char>, Seq<char>>>,
    pub name: Seq<char>,
    pub attributes: Seq<(Seq<char>, Seq<char>)>,
    pub children: Seq<XmlBranch>,
}

/// `entries` with an entry for a key: in place of the one that is there, or at the end.
pub open spec fn with_entry(
    entries: Seq<(Seq<char>, Seq<char>)>,
    key: Seq<char>,
    value: Seq<char>,
) -> Seq<(Seq<char>, Seq<char>)> {
    if exists|i: int| 0 <= i < entries.len() && #[trigger] entries[i].0 == key {
        entries.map_values(|e: (Seq<char>, Seq<char>)| if e.0 == key { (key, value) } else { e })
    } else {
        entries.push((key, value))
    }
}

/// The entries in order, each name at its first place with the value it was given last.
pub open spec fn settled(entries: Seq<(Seq<char>, Seq<char>)>) -> Seq<(Seq<char>, Seq<char>)>
    decreases entries.len(),
{
    if entries.len() == 0 {
        entries
    } else {
        with_entry(settled(entries.drop_last()), entries.last().0, entries.last().1)
    }
}

/// The entries as a map: each key with the value it was given last.
pub open spec fn mapped(entries: Seq<(Seq<char>, Seq<char>)>) -> Map<Seq<char>, Seq<char>>
    decreases entries.len(),
{
    if entries.len() == 0 {
        Map::empty()
    } else {
        mapped(entries.drop_last()).insert(entries.last().0, entries.last().1)
    }
}

impl XmlElement {
    pub open spec fn tree(self) -> XmlTree
        decreases self,
    {
        XmlTree {
            prefix: text::option_view(self.prefix),
            namespace: text::option_view(self.namespace),
            namespaces: match self.namespaces {
                Some(v) => Some(mapped(text::pair_views(v@))),
                None => None,
            },
            name: self.name@,
            attributes: settled(text::pair_views(self.attributes@)),
            children: Seq::new(
                self.children@.len(),
                |i: int| if 0 <= i < self.children@.len() { self.children@[i].branch() } else { arbitrary() },
            ),
        }
    }
}

impl XmlNode {
    pub open spec fn branch(self) -> XmlBranch
        decreases self,
    {
        match self {
            XmlNode::Element(e) => XmlBranch::Element(e.tree()),
            XmlNode::Comment(s) => XmlBranch::Comment(s@),
            XmlNode::CData(s) => XmlBranch::CData(s@),
            XmlNode::Text(s) => XmlBranch::Text(s@),
            XmlNode::ProcessingInstruction(n, d) => XmlBranch::ProcessingInstruction(n@, text::option_view(d)),
        }
    }
}

// ---------------------------------------------------------------------------
// Paths
// ---------------------------------------------------------------------------

/// The text that stands directly below an element: its text nodes, one after the other.
pub open spec fn direct_text(children: Seq<XmlBranch>) -> Seq<char>
    decreases children.len(),
{
    if children.len() == 0 {
        Seq::empty()
    } else {
        direct_text(children.drop_last()) + match children.last() {
            XmlBranch::Text(s) => s,
            _ => Seq::empty(),
        }
    }
}

/// The first element named `name`, depth first, from `t` itself down.
pub open spec fn first_named(t: XmlTree, name: Seq<char>) -> Option<XmlTree>
    decreases t,
{
    if t.name == name {
        Some(t)
    } else {
        first_named_in(t.children, name)
    }
}

/// The first element named `name`, depth first, among `children` and below them.
pub open spec fn first_named_in(children: Seq<XmlBranch>, name: Seq<char>) -> Option<XmlTree>
    decreases children,
{
    if children.len() == 0 {
        None
    } else {
        match children[0] {
            XmlBranch::Element(c) if first_named(c, name) is Some => first_named(c, name),
            _ => first_named_in(children.skip(1), name),
        }
    }
}

/// Whether there is an element named `name` from a node down.
pub open spec fn leads_to(branch: XmlBranch, name: Seq<char>) -> bool {
    match branch {
        XmlBranch::Element(c) => first_named(c, name) is Some,
        _ => false,
    }
}

/// The element that the segments of `rest` lead to from one that was found: each names the
/// first element of that name below the one before. Where there is none, they lead nowhere.
pub open spec fn descend(found: Option<XmlTree>, rest: Seq<Seq<char>>) -> Option<XmlTree>
    decreases rest.len(),
{
    match found {
        Some(t) => if rest.len() == 0 {
            Some(t)
        } else {
            descend(first_named_in(t.children, rest[0]), rest.skip(1))
        },
        None => None,
    }
}

/// The element that `path` names. The first segment names the first element of that name,
/// depth first, from `t` itself down; each further segment names the first element of that
/// name below the one found before.
pub open spec fn locate(t: XmlTree, path: Seq<Seq<char>>) -> Option<XmlTree> {
    if path.len() == 0 {
        None
    } else {
        descend(first_named(t, path[0]), path.skip(1))
    }
}

/// The element that `path` names among `children` and below them.
pub open spec fn locate_in(children: Seq<XmlBranch>, path: Seq<Seq<char>>) -> Option<XmlTree> {
    if path.len() == 0 {
        None
    } else {
        descend(first_named_in(children, path[0]), path.skip(1))
    }
}

/// The text of the element that `path` names.
pub open spec fn text_at(t: XmlTree, path: Seq<Seq<char>>) -> Option<Seq<char>> {
    match locate(t, path) {
        Some(found) => Some(direct_text(found.children)),
        None => None,
    }
}

/// `t` with other children, if there are any.
pub open spec fn with_children(t: XmlTree, children: Option<Seq<XmlBranch>>) -> Option<XmlTree> {
    match children {
        Some(children) => Some(XmlTree { children, ..t }),
        None => None,
    }
}

/// `t` with the children of the element that `path` names replaced by the text `value`, and
/// nothing else changed.
pub open spec fn with_text(t: XmlTree, path: Seq<Seq<char>>, value: Seq<char>) -> Option<XmlTree>
    decreases path.len(), t,
{
    if path.len() == 0 {
        None
    } else if t.name != path[0] {
        with_children(t, with_text_in(t.children, path, value))
    } else if path.len() > 1 {
        with_children(t, with_text_in(t.children, path.skip(1), value))
    } else {
        with_children(t, Some(seq![XmlBranch::Text(value)]))
    }
}

/// `children` with that change made in the first of them that leads to the first segment.
pub open spec fn with_text_in(
    children: Seq<XmlBranch>,
    path: Seq<Seq<char>>,
    value: Seq<char>,
) -> Option<Seq<XmlBranch>>
    decreases path.len(), children,
{
    if children.len() == 0 {
        None
    } else if leads_to(children[0], path[0]) {
        match with_text(children[0]->Element_0, path, value) {
            Some(changed) => Some(seq![XmlBranch::Element(changed)] + children.skip(1)),
            None => None,
        }
    } else {
        match with_text_in(children.skip(1), path, value) {
            Some(rest) => Some(seq![children[0]] + rest),
            None => None,
        }
    }
}

/// An element can be given a new text exactly where its text can be read, and reading at the
/// same path then gives the new text.
pub proof fn law_text_at_with_text(t: XmlTree, path: Seq<Seq<char>>, value: Seq<char>)
    ensures
        with_text(t, path, value) is Some <==> text_at(t, path) is Some,
        with_text(t, path, value) matches Some(changed) ==> text_at(changed, path) == Some(value),
{
    lemma_located(t, path, value);
    if let Some(changed) = with_text(t, path, value) {
        let found = locate(changed, path)->0;
        assert(found.children =~= seq![XmlBranch::Text(value)]);
        assert(found.children.drop_last() =~= Seq::<XmlBranch>::empty());
        assert(direct_text(Seq::<XmlBranch>::empty()) =~= Seq::<char>::empty());
        assert(direct_text(found.children) =~= value);
    }
}

/// How a search goes on from an element: below it, with the first segment or without it.
proof fn lemma_locate(t: XmlTree, path: Seq<Seq<char>>)
    requires
        path.len() > 0,
    ensures
        t.name != path[0] ==> locate(t, path) == locate_in(t.children, path),
        t.name == path[0] && path.len() > 1 ==> locate(t, path) == locate_in(t.children, path.skip(1)),
        t.name == path[0] && path.len() == 1 ==> locate(t, path) == Some(t),
{
}

/// How a search goes on among nodes: in the first that leads to the first segment.
proof fn lemma_locate_in(children: Seq<XmlBranch>, path: Seq<Seq<char>>)
    requires
        path.len() > 0,
    ensures
        children.len() == 0 ==> locate_in(children, path) is None,
        children.len() > 0 && leads_to(children[0], path[0]) ==> locate_in(children, path) == locate(
            children[0]->Element_0,
            path,
        ),
        children.len() > 0 && !leads_to(children[0], path[0]) ==> locate_in(children, path) == locate_in(
            children.skip(1),
            path,
        ),
{
}

/// Replacing a text keeps the names on the way to the element that it is replaced in, and so
/// the place where the path leads.
proof fn lemma_located(t: XmlTree, path: Seq<Seq<char>>, value: Seq<char>)
    ensures
        with_text(t, path, value) is Some <==> locate(t, path) is Some,
        with_text(t, path, value) matches Some(changed) ==> {
            &&& changed.name == t.name
            &&& first_named(changed, path[0]) is Some
            &&& locate(changed, path) matches Some(found) && found.children == seq![XmlBranch::Text(value)]
        },
    decreases path.len(), t,
{
    if path.len() > 0 {
        lemma_locate(t, path);
        if t.name != path[0] {
            lemma_located_in(t.children, path, value);
        } else if path.len() > 1 {
            lemma_located_in(t.children, path.skip(1), value);
        }
        if let Some(changed) = with_text(t, path, value) {
            lemma_locate(changed, path);
        }
    }
}

proof fn lemma_located_in(children: Seq<XmlBranch>, path: Seq<Seq<char>>, value: Seq<char>)
    requires
        path.len() > 0,
    ensures
        with_text_in(children, path, value) is Some <==> locate_in(children, path) is Some,
        with_text_in(children, path, value) matches Some(changed) ==> {
            &&& first_named_in(changed, path[0]) is Some
            &&& locate_in(changed, path) matches Some(found) && found.children == seq![XmlBranch::Text(value)]
        },
    decreases path.len(), children,
{
    if children.len() > 0 {
        lemma_locate_in(children, path);
        if leads_to(children[0], path[0]) {
            lemma_located(children[0]->Element_0, path, value);
        } else {
            lemma_located_in(children.skip(1), path, value);
        }
        lemma_changed(children, path, value);
        if let Some(changed) = with_text_in(children, path, value) {
            lemma_locate_in(changed, path);
        }
    }
}

/// The first of some nodes and the others, once a text was replaced among them.
proof fn lemma_changed(children: Seq<XmlBranch>, path: Seq<Seq<char>>, value: Seq<char>)
    requires
        children.len() > 0,
    ensures
        with_text_in(children, path, value) matches Some(changed) ==> {
            &&& changed.len() > 0
            &&& leads_to(children[0], path[0]) ==> changed[0] == XmlBranch::Element(
                with_text(children[0]->Element_0, path, value)->0,
            ) && changed.skip(1) == children.skip(1) && with_text(children[0]->Element_0, path, value) is Some
            &&& !leads_to(children[0], path[0]) ==> changed[0] == children[0] && Some(changed.skip(1))
                == with_text_in(children.skip(1), path, value)
        },
{
    if let Some(changed) = with_text_in(children, path, value) {
        if leads_to(children[0], path[0]) {
            assert(changed.skip(1) =~= children.skip(1));
        } else {
            let rest = with_text_in(children.skip(1), path, value)->0;
            assert(changed.skip(1) =~= rest);
        }
    }
}

/// Of two texts given to the same element, the later one stays.
pub proof fn law_last_text_wins(t: XmlTree, path: Seq<Seq<char>>, first: Seq<char>, second: Seq<char>)
    ensures
        with_text(t, path, first) matches Some(changed) ==> with_text(changed, path, second) == with_text(
            t,
            path,
            second,
        ),
    decreases path.len(), t,
{
    if path.len() > 0 {
        if t.name != path[0] {
            lemma_last_text_wins_in(t.children, path, first, second);
        } else if path.len() > 1 {
            lemma_last_text_wins_in(t.children, path.skip(1), first, second);
        }
    }
}

proof fn lemma_last_text_wins_in(
    children: Seq<XmlBranch>,
    path: Seq<Seq<char>>,
    first: Seq<char>,
    second: Seq<char>,
)
    requires
        path.len() > 0,
    ensures
        with_text_in(children, path, first) matches Some(changed) ==> with_text_in(changed, path, second)
            == with_text_in(children, path, second),
    decreases path.len(), children,
{
    if children.len() > 0 {
        lemma_changed(children, path, first);
        if leads_to(children[0], path[0]) {
            lemma_located(children[0]->Element_0, path, first);
            law_last_text_wins(children[0]->Element_0, path, first, second);
        } else {
            lemma_last_text_wins_in(children.skip(1), path, first, second);
        }
    }
}

/// Giving an element back the one text that it held undoes a replacement.
pub proof fn law_old_text_restores(t: XmlTree, path: Seq<Seq<char>>, value: Seq<char>, held: Seq<char>)
    requires
        locate(t, path) matches Some(found) && found.children == seq![XmlBranch::Text(held)],
    ensures
        with_text(t, path, value) matches Some(changed) && with_text(changed, path, held) == Some(t),
{
    lemma_located(t, path, value);
    law_last_text_wins(t, path, value, held);
    lemma_same_text(t, path, held);
}

proof fn lemma_same_text(t: XmlTree, path: Seq<Seq<char>>, held: Seq<char>)
    requires
        locate(t, path) matches Some(found) && found.children == seq![XmlBranch::Text(held)],
    ensures
        with_text(t, path, held) == Some(t),
    decreases path.len(), t,
{
    lemma_locate(t, path);
    if t.name != path[0] {
        lemma_same_text_in(t.children, path, held);
    } else if path.len() > 1 {
        lemma_same_text_in(t.children, path.skip(1), held);
    }
}

proof fn lemma_same_text_in(children: Seq<XmlBranch>, path: Seq<Seq<char>>, held: Seq<char>)
    requires
        path.len() > 0,
        locate_in(children, path) matches Some(found) && found.children == seq![XmlBranch::Text(held)],
    ensures
        with_text_in(children, path, held) == Some(children),
    decreases path.len(), children,
{
    lemma_locate_in(children, path);
    assert(seq![children[0]] + children.skip(1) =~= children);
    if leads_to(children[0], path[0]) {
        lemma_same_text(children[0]->Element_0, path, held);
    } else {
        lemma_same_text_in(children.skip(1), path, held);
    }
}

/// Whether `changed` is `t` with the children of one element, `t` itself or one below it,
/// replaced by the text `value`.
pub open spec fn one_text_replaced(t: XmlTree, changed: XmlTree, value: Seq<char>) -> bool
    decreases t,
{
    &&& changed == XmlTree { children: changed.children, ..t }
    &&& {
        ||| changed.children == seq![XmlBranch::Text(value)]
        ||| exists|i: int| 0 <= i < t.children.len() && {
            &&& changed.children == t.children.update(i, changed.children[i])
            &&& match (#[trigger] t.children[i], changed.children[i]) {
                (XmlBranch::Element(below), XmlBranch::Element(c)) => one_text_replaced(below, c, value),
                _ => false,
            }
        }
    }
}

/// Replacing a text changes the children of one element. Every other element keeps its name,
/// its attributes, its namespaces and its children, and so does that one but for the children.
pub proof fn law_one_text_is_replaced(t: XmlTree, path: Seq<Seq<char>>, value: Seq<char>)
    ensures
        with_text(t, path, value) matches Some(changed) ==> one_text_replaced(t, changed, value),
    decreases path.len(), t,
{
    if let Some(changed) = with_text(t, path, value) {
        let p = path_below(t, path);
        if p.len() > 0 {
            let i = lemma_one_text_is_replaced_in(t.children, p, value);
            assert(t.children[i] is Element);
        }
    }
}

proof fn lemma_one_text_is_replaced_in(
    children: Seq<XmlBranch>,
    path: Seq<Seq<char>>,
    value: Seq<char>,
) -> (i: int)
    requires
        path.len() > 0,
        with_text_in(children, path, value) is Some,
    ensures
        0 <= i < children.len(),
        children[i] is Element,
        with_text_in(children, path, value)->0[i] is Element,
        with_text_in(children, path, value)->0 == children.update(i, with_text_in(children, path, value)->0[i]),
        one_text_replaced(
            children[i]->Element_0,
            with_text_in(children, path, value)->0[i]->Element_0,
            value,
        ),
    decreases path.len(), children,
{
    let changed = with_text_in(children, path, value)->0;
    lemma_changed(children, path, value);
    if leads_to(children[0], path[0]) {
        law_one_text_is_replaced(children[0]->Element_0, path, value);
        assert(changed =~= children.update(0, changed[0]));
        0
    } else {
        let rest = children.skip(1);
        let later = changed.skip(1);
        let i = lemma_one_text_is_replaced_in(rest, path, value);
        assert(rest[i] == children[i + 1]);
        assert(later[i] == changed[i + 1]);
        assert forall|j: int| 0 <= j < children.len() implies #[trigger] changed[j] == children.update(
            i + 1,
            changed[i + 1],
        )[j] by {
            if j > 0 {
                assert(changed[j] == later[j - 1]);
                assert(later[j - 1] == rest.update(i, later[i])[j - 1]);
            }
        }
        assert(changed =~= children.update(i + 1, changed[i + 1]));
        i + 1
    }
}

/// What is left of a path below an element: all of it, or all but the first segment where
/// that names the element.
pub open spec fn path_below(t: XmlTree, path: Seq<Seq<char>>) -> Seq<Seq<char>> {
    if t.name == path[0] {
        path.skip(1)
    } else {
        path
    }
}

/// Whether the search for `other` goes the same way whatever stands in the element that `path`
/// names: it neither ends at that element nor finds what it looks for below it.
pub open spec fn keeps_clear(t: XmlTree, path: Seq<Seq<char>>, other: Seq<Seq<char>>) -> bool
    decreases t,
{
    if path.len() == 0 || other.len() == 0 {
        true
    } else {
        let p = path_below(t, path);
        let o = path_below(t, other);
        if p.len() == 0 {
            o.len() > 0 && if t.name == other[0] {
                locate_in(t.children, o) is None
            } else {
                first_named_in(t.children, o[0]) is None
            }
        } else {
            o.len() == 0 || keeps_clear_in(t.children, p, o)
        }
    }
}

/// Whether that is so of the two searches among `children`.
pub open spec fn keeps_clear_in(children: Seq<XmlBranch>, path: Seq<Seq<char>>, other: Seq<Seq<char>>) -> bool
    decreases children,
{
    if children.len() == 0 {
        true
    } else if leads_to(children[0], path[0]) || leads_to(children[0], other[0]) {
        leads_to(children[0], path[0]) && leads_to(children[0], other[0]) ==> keeps_clear(
            children[0]->Element_0,
            path,
            other,
        )
    } else {
        keeps_clear_in(children.skip(1), path, other)
    }
}

/// Whether two searches find the same text, or both find nothing. Where the first finds steady
/// texts, so does the second.
pub open spec fn same_texts(found: Option<XmlTree>, again: Option<XmlTree>) -> bool {
    match (found, again) {
        (Some(a), Some(b)) => {
            &&& direct_text(a.children) == direct_text(b.children)
            &&& steady_texts(a.children) ==> steady_texts(b.children)
        },
        (None, None) => true,
        _ => false,
    }
}

/// Replacing a text leaves the texts at other paths as they were: at every path whose search
/// goes the same way whatever stands in the element that the text is replaced in.
pub proof fn law_other_texts_stay(t: XmlTree, path: Seq<Seq<char>>, value: Seq<char>, other: Seq<Seq<char>>)
    requires
        locate(t, path) is Some,
        keeps_clear(t, path, other),
    ensures
        with_text(t, path, value) matches Some(changed) && text_at(changed, other) == text_at(t, other),
{
    lemma_located(t, path, value);
    if other.len() > 0 {
        lemma_other_texts_stay(t, path, value, other);
    }
}

proof fn lemma_other_texts_stay(t: XmlTree, path: Seq<Seq<char>>, value: Seq<char>, other: Seq<Seq<char>>)
    requires
        locate(t, path) is Some,
        other.len() > 0,
        keeps_clear(t, path, other),
    ensures
        with_text(t, path, value) matches Some(changed) && {
            &&& first_named(t, other[0]) is Some <==> first_named(changed, other[0]) is Some
            &&& same_texts(locate(t, other), locate(changed, other))
        },
    decreases path.len(), t,
{
    lemma_located(t, path, value);
    lemma_locate(t, path);
    lemma_locate(t, other);
    let changed = with_text(t, path, value)->0;
    lemma_locate(changed, other);
    let p = path_below(t, path);
    let o = path_below(t, other);
    if p.len() == 0 {
        let all = seq![XmlBranch::Text(value)];
        assert(changed.children =~= all);
        assert(all.skip(1) =~= Seq::<XmlBranch>::empty());
        assert(first_named_in(all.skip(1), o[0]) is None);
        assert(first_named_in(all, o[0]) is None);
    } else {
        lemma_texts_kept(t.children, p, value);
        if o.len() > 0 {
            lemma_other_texts_stay_in(t.children, p, value, o);
        }
    }
}

proof fn lemma_other_texts_stay_in(
    children: Seq<XmlBranch>,
    path: Seq<Seq<char>>,
    value: Seq<char>,
    other: Seq<Seq<char>>,
)
    requires
        path.len() > 0,
        other.len() > 0,
        locate_in(children, path) is Some,
        keeps_clear_in(children, path, other),
    ensures
        with_text_in(children, path, value) matches Some(changed) && {
            &&& first_named_in(children, other[0]) is Some <==> first_named_in(changed, other[0]) is Some
            &&& same_texts(locate_in(children, other), locate_in(changed, other))
        },
    decreases path.len(), children,
{
    lemma_located_in(children, path, value);
    lemma_locate_in(children, path);
    lemma_locate_in(children, other);
    lemma_changed(children, path, value);
    let changed = with_text_in(children, path, value)->0;
    lemma_locate_in(changed, other);
    if leads_to(children[0], path[0]) {
        let c = children[0]->Element_0;
        if leads_to(children[0], other[0]) {
            lemma_other_texts_stay(c, path, value, other);
        } else {
            lemma_no_new_names(c, path, value, other[0]);
        }
    } else if !leads_to(children[0], other[0]) {
        lemma_other_texts_stay_in(children.skip(1), path, value, other);
    }
}

/// Replacing a text brings no new names.
proof fn lemma_no_new_names(t: XmlTree, path: Seq<Seq<char>>, value: Seq<char>, name: Seq<char>)
    requires
        first_named(t, name) is None,
    ensures
        with_text(t, path, value) matches Some(changed) ==> first_named(changed, name) is None,
    decreases path.len(), t,
{
    if path.len() > 0 {
        if t.name != path[0] {
            lemma_no_new_names_in(t.children, path, value, name);
        } else if path.len() > 1 {
            lemma_no_new_names_in(t.children, path.skip(1), value, name);
        } else {
            let all = seq![XmlBranch::Text(value)];
            assert(all.skip(1) =~= Seq::<XmlBranch>::empty());
            assert(first_named_in(all.skip(1), name) is None);
        }
    }
}

proof fn lemma_no_new_names_in(children: Seq<XmlBranch>, path: Seq<Seq<char>>, value: Seq<char>, name: Seq<char>)
    requires
        path.len() > 0,
        first_named_in(children, name) is None,
    ensures
        with_text_in(children, path, value) matches Some(changed) ==> first_named_in(changed, name) is None,
    decreases path.len(), children,
{
    if children.len() > 0 {
        lemma_changed(children, path, value);
        assert(!leads_to(children[0], name));
        if leads_to(children[0], path[0]) {
            lemma_no_new_names(children[0]->Element_0, path, value, name);
        } else {
            lemma_no_new_names_in(children.skip(1), path, value, name);
        }
    }
}

/// Replacing a text below some nodes keeps the text that the nodes themselves make up.
proof fn lemma_texts_kept(children: Seq<XmlBranch>, path: Seq<Seq<char>>, value: Seq<char>)
    requires
        path.len() > 0,
    ensures
        with_text_in(children, path, value) matches Some(changed) ==> {
            &&& direct_text(changed) == direct_text(children)
            &&& steady_texts(children) == steady_texts(changed)
        },
    decreases path.len(), children,
{
    lemma_steady_kept(children, path, value, Seq::empty(), false);
    if children.len() > 0 && with_text_in(children, path, value) is Some {
        let changed = with_text_in(children, path, value)->0;
        lemma_changed(children, path, value);
        assert(seq![children[0]] + children.skip(1) =~= children);
        assert(seq![changed[0]] + changed.skip(1) =~= changed);
        lemma_direct_text(children[0], children.skip(1));
        lemma_direct_text(changed[0], changed.skip(1));
        if !leads_to(children[0], path[0]) {
            lemma_texts_kept(children.skip(1), path, value);
        }
    }
}

proof fn lemma_steady_kept(
    children: Seq<XmlBranch>,
    path: Seq<Seq<char>>,
    value: Seq<char>,
    run: Seq<char>,
    after_cdata: bool,
)
    requires
        path.len() > 0,
    ensures
        with_text_in(children, path, value) matches Some(changed) ==> steady_from(children, run, after_cdata)
            == steady_from(changed, run, after_cdata),
    decreases children.len(),
{
    if children.len() > 0 && with_text_in(children, path, value) is Some {
        lemma_changed(children, path, value);
        if !leads_to(children[0], path[0]) {
            let rest = children.skip(1);
            match children[0] {
                XmlBranch::Text(s) => lemma_steady_kept(rest, path, value, run + s, after_cdata),
                XmlBranch::CData(d) => lemma_steady_kept(rest, path, value, Seq::empty(), !blank(d)),
                _ => lemma_steady_kept(rest, path, value, Seq::empty(), false),
            }
        }
    }
}

/// The only text of an element keeps its characters if it does so on its own.
proof fn lemma_steady_text(value: Seq<char>)
    ensures
        steady_texts(seq![XmlBranch::Text(value)]) == steady(value),
{
    let all = seq![XmlBranch::Text(value)];
    assert(all.skip(1) =~= Seq::<XmlBranch>::empty());
    assert(Seq::<char>::empty() + value =~= value);
    reveal_with_fuel(steady_from, 2);
}

proof fn lemma_direct_text(first: XmlBranch, rest: Seq<XmlBranch>)
    ensures
        direct_text(seq![first] + rest) == match first {
            XmlBranch::Text(s) => s,
            _ => Seq::empty(),
        } + direct_text(rest),
    decreases rest.len(),
{
    let all = seq![first] + rest;
    if rest.len() == 0 {
        assert(all.drop_last() =~= Seq::<XmlBranch>::empty());
        assert(direct_text(Seq::<XmlBranch>::empty()) =~= Seq::<char>::empty());
        assert(all.last() == first);
    } else {
        lemma_direct_text(first, rest.drop_last());
        assert(all.drop_last() =~= seq![first] + rest.drop_last());
        assert(all.last() == rest.last());
    }
}

/// The text that stands directly below an element.
fn collect_text(el: &XmlElement) -> (r: String)
    ensures
        r@ == direct_text(el.tree().children),
{
    let mut s = String::new();
    let mut i: usize = 0;
    while i < el.children.len()
        invariant
            i <= el.children@.len(),
            s@ == direct_text(el.tree().children.take(i as int)),
        decreases el.children@.len() - i,
    {
        proof {
            assert(el.tree().children.take(i + 1).drop_last() =~= el.tree().children.take(i as int));
        }
        if let XmlNode::Text(t) = &el.children[i] {
            s.append(t.as_str());
        }
        i = i + 1;
    }
    proof {
        assert(el.tree().children.take(i as int) =~= el.tree().children);
    }
    s
}

/// The first element named `name`, depth first, from `el` itself down.
fn find_first<'a>(el: &'a XmlElement, name: &str) -> (r: Option<&'a XmlElement>)
    ensures
        match r {
            Some(found) => first_named(el.tree(), name@) == Some(found.tree()),
            None => first_named(el.tree(), name@) is None,
        },
    decreases el, 1int,
{
    if text::same_text(el.name.as_str(), name) {
        Some(el)
    } else {
        find_below(el, name)
    }
}

/// The first element named `name`, depth first, below `el`.
fn find_below<'a>(el: &'a XmlElement, name: &str) -> (r: Option<&'a XmlElement>)
    ensures
        match r {
            Some(found) => first_named_in(el.tree().children, name@) == Some(found.tree()),
            None => first_named_in(el.tree().children, name@) is None,
        },
    decreases el, 0int,
{
    let ghost all = el.tree().children;
    let mut i: usize = 0;
    proof {
        assert(all.skip(0) =~= all);
    }
    while i < el.children.len()
        invariant
            i <= el.children@.len(),
            all == el.tree().children,
            first_named_in(all, name@) == first_named_in(all.skip(i as int), name@),
        decreases el.children@.len() - i,
    {
        proof {
            assert(all.skip(i as int)[0] == all[i as int]);
            assert(all.skip(i as int).skip(1) =~= all.skip(i + 1));
        }
        if let XmlNode::Element(c) = &el.children[i] {
            assert(decreases_to!(el.children => el.children@));
            let found = find_first(c, name);
            if found.is_some() {
                return found;
            }
        }
        i = i + 1;
    }
    None
}

/// The element that the segments of `path` lead to, given what the first of them names.
fn follow<'a>(found: &'a XmlElement, path: &[String]) -> (r: Option<&'a XmlElement>)
    requires
        path@.len() > 0,
    ensures
        match r {
            Some(last) => descend(Some(found.tree()), text::views(path@).skip(1)) == Some(last.tree()),
            None => descend(Some(found.tree()), text::views(path@).skip(1)) is None,
        },
{
    let ghost p = text::views(path@);
    let mut last = found;
    let mut i: usize = 1;
    while i < path.len()
        invariant
            1 <= i <= path@.len(),
            p == text::views(path@),
            descend(Some(found.tree()), p.skip(1)) == descend(Some(last.tree()), p.skip(i as int)),
        decreases path@.len() - i,
    {
        proof {
            assert(p.skip(i as int)[0] == path@[i as int]@);
            assert(p.skip(i as int).skip(1) =~= p.skip(i + 1));
            reveal_with_fuel(descend, 2);
        }
        last = match find_below(last, path[i].as_str()) {
            Some(next) => next,
            None => return None,
        };
        i = i + 1;
    }
    Some(last)
}

/// The element that `path` names from `el` down; `None` if there is no such element.
pub fn find_element<'a>(el: &'a XmlElement, path: &[String]) -> (r: Option<&'a XmlElement>)
    ensures
        match r {
            Some(found) => locate(el.tree(), text::views(path@)) == Some(found.tree()),
            None => locate(el.tree(), text::views(path@)) is None,
        },
{
    if path.len() == 0 {
        return None;
    }
    match find_first(el, path[0].as_str()) {
        Some(found) => follow(found, path),
        None => None,
    }
}

/// Reads the text of the element that `path` names from `el` down; `None` if there is no such
/// element.
pub fn find_by_path(el: &XmlElement, path: &[String]) -> (r: Option<String>)
    ensures
        text::option_view(r) == text_at(el.tree(), text::views(path@)),
{
    match find_element(el, path) {
        Some(found) => Some(collect_text(found)),
        None => None,
    }
}

/// What becomes of nodes of which the first `i` do not lead to the first segment.
proof fn lemma_with_text_in(children: Seq<XmlBranch>, path: Seq<Seq<char>>, value: Seq<char>, i: int)
    requires
        0 <= i <= children.len(),
        forall|j: int| 0 <= j < i ==> !leads_to(#[trigger] children[j], path[0]),
    ensures
        i == children.len() ==> with_text_in(children, path, value) is None,
        i < children.len() && leads_to(children[i], path[0]) ==> with_text_in(children, path, value) == match with_text(
            children[i]->Element_0,
            path,
            value,
        ) {
            Some(changed) => Some(children.update(i, XmlBranch::Element(changed))),
            None => None,
        },
    decreases children.len(),
{
    if children.len() > 0 {
        let rest = children.skip(1);
        if i > 0 {
            assert(!leads_to(children[0], path[0]));
            assert forall|j: int| 0 <= j < i - 1 implies !leads_to(#[trigger] rest[j], path[0]) by {
                assert(rest[j] == children[j + 1]);
            }
            lemma_with_text_in(rest, path, value, i - 1);
            if i < children.len() && leads_to(children[i], path[0]) {
                assert(rest[i - 1] == children[i]);
                if let Some(changed) = with_text(children[i]->Element_0, path, value) {
                    assert(seq![children[0]] + rest.update(i - 1, XmlBranch::Element(changed)) =~= children.update(
                        i,
                        XmlBranch::Element(changed),
                    ));
                }
            }
        } else if leads_to(children[0], path[0]) {
            if let Some(changed) = with_text(children[0]->Element_0, path, value) {
                assert(seq![XmlBranch::Element(changed)] + rest =~= children.update(0, XmlBranch::Element(changed)));
            }
        }
    }
}

/// Replaces the children of the element that `path` names from `el` down by the text `value`,
/// and tells whether there is such an element.
pub fn replace_by_path(el: &mut XmlElement, path: &[String], value: &str) -> (r: bool)
    ensures
        match with_text(old(el).tree(), text::views(path@), value@) {
            Some(t) => r && final(el).tree() == t,
            None => !r && final(el).tree() == old(el).tree(),
        },
    decreases path@.len(), old(el).tree(), 1int,
{
    if path.len() == 0 {
        return false;
    }
    if el.name != path[0] {
        return replace_below(el, path, value);
    }
    if path.len() > 1 {
        let rest = vstd::slice::slice_subrange(path, 1, path.len());
        proof {
            assert(text::views(rest@) =~= text::views(path@).skip(1));
        }
        return replace_below(el, rest, value);
    }
    let mut children: Vec<XmlNode> = Vec::new();
    children.push(XmlNode::Text(value.to_owned()));
    el.children = children;
    proof {
        assert(el.tree().children =~= seq![XmlBranch::Text(value@)]);
    }
    true
}

/// The same below `el`.
fn replace_below(el: &mut XmlElement, path: &[String], value: &str) -> (r: bool)
    requires
        path@.len() > 0,
    ensures
        match with_children(old(el).tree(), with_text_in(old(el).tree().children, text::views(path@), value@)) {
            Some(t) => r && final(el).tree() == t,
            None => !r && final(el).tree() == old(el).tree(),
        },
    decreases path@.len(), old(el).tree(), 0int,
{
    let ghost all = el.tree().children;
    let ghost p = text::views(path@);
    let mut i: usize = 0;
    while i < el.children.len()
        invariant
            i <= el.children@.len(),
            el.tree() == old(el).tree(),
            path@.len() > 0,
            all == el.tree().children,
            p == text::views(path@),
            forall|j: int| 0 <= j < i ==> !leads_to(#[trigger] all[j], p[0]),
        decreases el.children@.len() - i,
    {
        if let XmlNode::Element(c) = &mut el.children[i] {
            proof {
                assert(all[i as int] == XmlBranch::Element(c.tree()));
                assert(decreases_to!(old(el).tree() => old(el).tree().children));
                assert(decreases_to!(all => all[i as int]));
                assert(decreases_to!(all[i as int] => all[i as int]->Element_0));
                assert(p[0] == path@[0]@);
            }
            if find_first(c, path[0].as_str()).is_some() {
                let replaced = replace_by_path(c, path, value);
                proof {
                    lemma_with_text_in(all, p, value@, i as int);
                    assert(el.tree().children =~= all.update(i as int, el.tree().children[i as int]));
                    assert(all.update(i as int, all[i as int]) =~= all);
                }
                return replaced;
            }
        }
        assert(el.tree().children =~= all);
        i = i + 1;
    }
    proof {
        lemma_with_text_in(all, p, value@, i as int);
    }
    false
}

/// Whether the search for `other` goes the same way whatever stands in the element that `path`
/// names.
pub fn is_clear(el: &XmlElement, path: &[String], other: &[String]) -> (r: bool)
    ensures
        r == keeps_clear(el.tree(), text::views(path@), text::views(other@)),
    decreases el, 1int,
{
    if path.len() == 0 || other.len() == 0 {
        return true;
    }
    let p = rest_below(el, path);
    let o = rest_below(el, other);
    if p.len() == 0 {
        return o.len() > 0 && if el.name == other[0] {
            match find_below(el, o[0].as_str()) {
                Some(found) => follow(found, o).is_none(),
                None => true,
            }
        } else {
            find_below(el, o[0].as_str()).is_none()
        };
    }
    o.len() == 0 || is_clear_below(el, p, o)
}

/// What is left of a path below an element.
fn rest_below<'a>(el: &XmlElement, path: &'a [String]) -> (r: &'a [String])
    requires
        path@.len() > 0,
    ensures
        text::views(r@) == path_below(el.tree(), text::views(path@)),
{
    if el.name == path[0] {
        let rest = vstd::slice::slice_subrange(path, 1, path.len());
        proof {
            assert(text::views(rest@) =~= text::views(path@).skip(1));
        }
        rest
    } else {
        path
    }
}

/// The same below `el`.
fn is_clear_below(el: &XmlElement, path: &[String], other: &[String]) -> (r: bool)
    requires
        path@.len() > 0,
        other@.len() > 0,
    ensures
        r == keeps_clear_in(el.tree().children, text::views(path@), text::views(other@)),
    decreases el, 0int,
{
    let ghost all = el.tree().children;
    let ghost p = text::views(path@);
    let ghost o = text::views(other@);
    let mut i: usize = 0;
    proof {
        assert(all.skip(0) =~= all);
    }
    while i < el.children.len()
        invariant
            i <= el.children@.len(),
            path@.len() > 0,
            other@.len() > 0,
            all == el.tree().children,
            p == text::views(path@),
            o == text::views(other@),
            keeps_clear_in(all, p, o) == keeps_clear_in(all.skip(i as int), p, o),
        decreases el.children@.len() - i,
    {
        proof {
            assert(all.skip(i as int)[0] == all[i as int]);
            assert(all.skip(i as int).skip(1) =~= all.skip(i + 1));
            assert(p[0] == path@[0]@);
            assert(o[0] == other@[0]@);
        }
        if let XmlNode::Element(c) = &el.children[i] {
            assert(decreases_to!(el.children => el.children@));
            let named = find_first(c, path[0].as_str()).is_some();
            let other_named = find_first(c, other[0].as_str()).is_some();
            if named || other_named {
                return !(named && other_named) || is_clear(c, path, other);
            }
        }
        i = i + 1;
    }
    true
}

// ---------------------------------------------------------------------------
// Documents as text
// ---------------------------------------------------------------------------

/// An element of the `xmltree` crate. Values of it are only carried between the four
/// functions below.
#[verifier::external_type_specification]
#[verifier::external_body]
pub struct ExElement(xmltree::Element);

/// The tree that an `xmltree::Element` holds.
pub uninterp spec fn element_tree(e: xmltree::Element) -> XmlTree;

/// What `xmltree::Element::parse` makes of a text: the root element, or the words of the
/// error that it ends in.
pub uninterp spec fn parsed_document(xml: Seq<char>) -> Result<XmlTree, Seq<char>>;

/// The text that `xmltree::Element::write` writes for a root element.
pub uninterp spec fn written_document(t: XmlTree) -> Seq<char>;

/// The characters of XML 1.0.
pub open spec fn xml_char(c: char) -> bool {
    c == '\t' || c == '\n' || c == '\r' || (' ' <= c && c != '\u{fffe}' && c != '\u{ffff}')
}

/// Whether a text consists of such characters.
pub open spec fn xml_text(s: Seq<char>) -> bool {
    forall|i: int| 0 <= i < s.len() ==> xml_char(#[trigger] s[i])
}

/// The white space of XML.
pub open spec fn xml_space(c: char) -> bool {
    c == ' ' || c == '\t' || c == '\n' || c == '\r'
}

/// The characters that a name without a prefix may start with.
pub open spec fn name_start(c: char) -> bool {
    ||| 'A' <= c <= 'Z'
    ||| c == '_'
    ||| 'a' <= c <= 'z'
    ||| '\u{c0}' <= c <= '\u{d6}'
    ||| '\u{d8}' <= c <= '\u{f6}'
    ||| '\u{f8}' <= c <= '\u{2ff}'
    ||| '\u{370}' <= c <= '\u{37d}'
    ||| '\u{37f}' <= c <= '\u{1fff}'
    ||| '\u{200c}' <= c <= '\u{200d}'
    ||| '\u{2070}' <= c <= '\u{218f}'
    ||| '\u{2c00}' <= c <= '\u{2fef}'
    ||| '\u{3001}' <= c <= '\u{d7ff}'
    ||| '\u{f900}' <= c <= '\u{fdcf}'
    ||| '\u{fdf0}' <= c <= '\u{fffd}'
    ||| '\u{10000}' <= c <= '\u{effff}'
}

/// The characters that may follow in such a name.
pub open spec fn name_part(c: char) -> bool {
    ||| name_start(c)
    ||| c == '-'
    ||| c == '.'
    ||| '0' <= c <= '9'
    ||| c == '\u{b7}'
    ||| '\u{300}' <= c <= '\u{36f}'
    ||| '\u{203f}' <= c <= '\u{2040}'
}

/// Whether a text can stand behind a prefix in a name.
pub open spec fn name_tail(s: Seq<char>) -> bool {
    s.len() > 0 && forall|i: int| 0 <= i < s.len() ==> name_part(#[trigger] s[i])
}

/// Whether a text is a name without a prefix.
pub open spec fn plain_name(s: Seq<char>) -> bool {
    name_tail(s) && name_start(s[0])
}

/// Whether a text is the target of a processing instruction: a name in which colons may stand
/// anywhere.
pub open spec fn target_name(s: Seq<char>) -> bool {
    &&& s.len() > 0
    &&& name_start(s[0]) || s[0] == ':'
    &&& forall|i: int| 0 <= i < s.len() ==> name_part(#[trigger] s[i]) || s[i] == ':'
}

/// How many bytes of a name may stand before its last character, for it to be read.
pub const LONGEST_NAME: usize = 0x4_0000;

/// Whether a name is short enough to be read.
pub open spec fn short_name(s: Seq<char>) -> bool {
    vstd::utf8::encode_utf8(s.drop_last()).len() <= LONGEST_NAME
}

/// Whether a namespace declaration can be read back.
pub open spec fn portable_namespace(prefix: Seq<char>, uri: Seq<char>) -> bool {
    ||| prefix == "xml"@ || prefix == "xmlns"@
    ||| prefix == ""@ && xml_text(uri) && uri != "xml"@ && uri != "xmlns"@ && uri
        != "http://www.w3.org/XML/1998/namespace"@ && uri != "http://www.w3.org/2000/xmlns/"@
    ||| name_tail(prefix) && short_name("xmlns:"@ + prefix) && xml_text(uri) && uri.len() > 0
}

/// Whether an attribute can be read back.
pub open spec fn portable_attribute(attribute: (Seq<char>, Seq<char>)) -> bool {
    plain_name(attribute.0) && short_name(attribute.0) && attribute.0 != "xmlns"@ && xml_text(attribute.1)
}

/// Whether an element, written out as `xmltree` does it, can be read back: its names are
/// names, its prefix is declared, and every character is one of XML.
pub open spec fn portable(t: XmlTree) -> bool
    decreases t,
{
    &&& match t.prefix {
        Some(p) => {
            &&& plain_name(p) && p != "xml"@ && p != "xmlns"@
            &&& name_tail(t.name) && short_name(p + ":"@ + t.name)
            &&& t.namespaces is Some && t.namespaces->0.contains_key(p)
        },
        None => plain_name(t.name) && short_name(t.name),
    }
    &&& match t.namespaces {
        Some(m) => forall|p: Seq<char>| #[trigger] m.contains_key(p) ==> portable_namespace(p, m[p]),
        None => true,
    }
    &&& t.attributes.len() <= 0x10000
    &&& forall|i: int| 0 <= i < t.attributes.len() ==> portable_attribute(#[trigger] t.attributes[i])
    &&& forall|i: int| 0 <= i < t.children.len() ==> portable_branch(#[trigger] t.children[i])
}

/// Whether a node can be read back where its element can.
pub open spec fn portable_branch(b: XmlBranch) -> bool
    decreases b,
{
    match b {
        XmlBranch::Element(t) => portable(t),
        XmlBranch::Comment(s) => xml_text(s),
        XmlBranch::CData(s) => xml_text(s),
        XmlBranch::Text(s) => xml_text(s),
        XmlBranch::ProcessingInstruction(name, data) => {
            &&& target_name(name) && short_name(name) && text::lowered(name) != "xml"@
            &&& data matches Some(d) ==> xml_text(d) && !text::occurs(d, "?>"@)
        },
    }
}

/// Whether a text consists of white space.
pub open spec fn blank(s: Seq<char>) -> bool {
    forall|i: int| 0 <= i < s.len() ==> xml_space(#[trigger] s[i])
}

/// Whether the text between two pieces of markup keeps its characters when it is written out
/// and read back. It has no carriage return, which is read back as a line feed; and it is not
/// blank, or it is empty, or it follows a CDATA section that is not blank.
pub open spec fn steady_run(run: Seq<char>, after_cdata: bool) -> bool {
    (run.len() == 0 || after_cdata || !blank(run)) && !run.contains('\r')
}

/// Whether a text between two tags keeps its characters when it is written out and read back.
pub open spec fn steady(s: Seq<char>) -> bool {
    steady_run(s, false)
}

/// Whether the texts among `children` do, where `run` stands before them, behind a CDATA section
/// that is not blank or behind other markup. Texts that follow each other make up one.
pub open spec fn steady_from(children: Seq<XmlBranch>, run: Seq<char>, after_cdata: bool) -> bool
    decreases children.len(),
{
    if children.len() == 0 {
        steady_run(run, after_cdata)
    } else {
        match children[0] {
            XmlBranch::Text(s) => steady_from(children.skip(1), run + s, after_cdata),
            XmlBranch::CData(d) => steady_run(run, after_cdata) && steady_from(
                children.skip(1),
                Seq::empty(),
                !blank(d),
            ),
            _ => steady_run(run, after_cdata) && steady_from(children.skip(1), Seq::empty(), false),
        }
    }
}

/// Whether the texts directly below an element do.
pub open spec fn steady_texts(children: Seq<XmlBranch>) -> bool {
    steady_from(children, Seq::empty(), false)
}

/// Whether attributes keep their values when they are written out and read back: none holds a
/// tab, which is read back as a space.
pub open spec fn steady_attributes(attributes: Seq<(Seq<char>, Seq<char>)>) -> bool {
    forall|i: int| 0 <= i < attributes.len() ==> !(#[trigger] attributes[i]).1.contains('\t')
}

/// Whether `again` has the elements of `t`, under the same names and in the same order, and in
/// each of them the same attributes, if those are steady, and the same text, if the texts are.
pub open spec fn rereads(t: XmlTree, again: XmlTree) -> bool
    decreases t, again,
{
    &&& t.name == again.name
    &&& steady_attributes(t.attributes) ==> t.attributes == again.attributes
    &&& steady_texts(t.children) ==> direct_text(t.children) == direct_text(again.children)
    &&& rereads_all(t.children, again.children)
}

/// Whether that is so of the elements among `children` and among `again`, pair by pair.
pub open spec fn rereads_all(children: Seq<XmlBranch>, again: Seq<XmlBranch>) -> bool
    decreases children, again,
{
    if children.len() > 0 && children[0] !is Element {
        rereads_all(children.skip(1), again)
    } else if again.len() > 0 && again[0] !is Element {
        rereads_all(children, again.skip(1))
    } else if children.len() == 0 || again.len() == 0 {
        children.len() == again.len()
    } else {
        rereads(children[0]->Element_0, again[0]->Element_0) && rereads_all(children.skip(1), again.skip(1))
    }
}

/// Whether `xml` reads as the elements of `t` with their steady attributes and texts.
pub open spec fn reads_back(t: XmlTree, xml: Seq<char>) -> bool {
    parsed_document(xml) matches Ok(again) && rereads(t, again)
}

/// The number of bytes up to which a document is surely short enough to be read back.
pub const LONGEST_DOCUMENT: usize = 0x3fff_ffff;

/// `xmltree::Element::parse`: the outcome depends on the text alone.
///
/// How deep the elements of a document may be nested is up to the stack, and is not stated.
#[verifier::external_body]
fn parse_document(xml: &str) -> (r: Result<xmltree::Element, String>)
    ensures
        match r {
            Ok(e) => parsed_document(xml@) == Ok::<XmlTree, Seq<char>>(element_tree(e)),
            Err(words) => parsed_document(xml@) == Err::<XmlTree, Seq<char>>(words@),
        },
{
    xmltree::Element::parse(xml.as_bytes()).map_err(|e| e.to_string())
}

/// The fields of an `xmltree::Element` and of the nodes below it, moved one for one.
#[verifier::external_body]
fn import_element(e: xmltree::Element) -> (r: XmlElement)
    ensures
        r.tree() == element_tree(e),
{
    let children = e.children.into_iter().map(|n| match n {
        xmltree::XMLNode::Element(c) => XmlNode::Element(import_element(c)),
        xmltree::XMLNode::Comment(s) => XmlNode::Comment(s),
        xmltree::XMLNode::CData(s) => XmlNode::CData(s),
        xmltree::XMLNode::Text(s) => XmlNode::Text(s),
        xmltree::XMLNode::ProcessingInstruction(s, d) => XmlNode::ProcessingInstruction(s, d),
    }).collect();
    let attributes = e.attributes.into_iter().collect();
    let namespaces = e.namespaces.map(|n| n.0.into_iter().collect());
    XmlElement { prefix: e.prefix, namespace: e.namespace, namespaces, name: e.name, attributes, children }
}

/// The same the other way round. `xmltree` keeps attributes in an insertion-ordered map and
/// namespaces in a map, in which the last value for a key stays.
#[verifier::external_body]
fn export_element(e: XmlElement) -> (r: xmltree::Element)
    ensures
        element_tree(r) == e.tree(),
{
    let children = e.children.into_iter().map(|n| match n {
        XmlNode::Element(c) => xmltree::XMLNode::Element(export_element(c)),
        XmlNode::Comment(s) => xmltree::XMLNode::Comment(s),
        XmlNode::CData(s) => xmltree::XMLNode::CData(s),
        XmlNode::Text(s) => xmltree::XMLNode::Text(s),
        XmlNode::ProcessingInstruction(s, d) => xmltree::XMLNode::ProcessingInstruction(s, d),
    }).collect();
    let attributes = e.attributes.into_iter().collect();
    let namespaces = e.namespaces.map(|n| xmltree::Namespace(n.into_iter().collect()));
    xmltree::Element { prefix: e.prefix, namespace: e.namespace, namespaces, name: e.name, attributes, children }
}

/// `xmltree::Element::write` into memory: it succeeds, writes the UTF-8 form of a text that
/// depends on the tree alone, and what it wrote for a portable tree `xmltree::Element::parse`
/// reads back as the same elements, with the same attributes and texts where those are steady.
#[verifier::external_body]
fn write_document(e: &xmltree::Element) -> (r: Result<Vec<u8>, String>)
    ensures
        r is Ok,
        r->Ok_0@ == vstd::utf8::encode_utf8(written_document(element_tree(*e))),
        portable(element_tree(*e)) && r->Ok_0@.len() <= LONGEST_DOCUMENT ==> reads_back(
            element_tree(*e),
            vstd::utf8::decode_utf8(r->Ok_0@),
        ),
{
    let mut out: Vec<u8> = Vec::new();
    match e.write(&mut out) {
        Ok(()) => Ok(out),
        Err(e) => Err(e.to_string()),
    }
}

/// Reads a document.
pub fn read_document(xml: &str) -> (r: Result<XmlElement, String>)
    ensures
        match r {
            Ok(root) => parsed_document(xml@) == Ok::<XmlTree, Seq<char>>(root.tree()),
            Err(words) => parsed_document(xml@) == Err::<XmlTree, Seq<char>>(words@),
        },
{
    match parse_document(xml) {
        Ok(e) => Ok(import_element(e)),
        Err(words) => Err(words),
    }
}

/// Writes a document. What it wrote for a portable root element reads back as the same
/// elements, under the same names, with the same attributes and texts where those are steady.
pub fn print_document(root: XmlElement) -> (r: Result<Vec<u8>, String>)
    ensures
        r matches Ok(bytes) && bytes@ == vstd::utf8::encode_utf8(written_document(root.tree())) && (portable(
            root.tree(),
        ) && bytes@.len() <= LONGEST_DOCUMENT ==> reads_back(root.tree(), written_document(root.tree()))),
{
    let r = write_document(&export_element(root));
    proof {
        vstd::utf8::encode_utf8_decode_utf8(written_document(root.tree()));
    }
    r
}

// ---------------------------------------------------------------------------
// Tests for what can be read back
// ---------------------------------------------------------------------------

/// Whether a text consists of the characters of XML 1.0.
pub fn is_xml_text(s: &str) -> (r: bool)
    ensures
        r == xml_text(s@),
{
    let v = text::to_chars(s);
    let mut i: usize = 0;
    while i < v.len()
        invariant
            i <= v@.len(),
            v@ == s@,
            forall|j: int| 0 <= j < i ==> xml_char(#[trigger] v@[j]),
        decreases v@.len() - i,
    {
        let c = v[i];
        if !(c == '\t' || c == '\n' || c == '\r' || (' ' <= c && c != '\u{fffe}' && c != '\u{ffff}')) {
            assert(!xml_char(s@[i as int]));
            return false;
        }
        i = i + 1;
    }
    true
}

/// Whether a text consists of white space.
fn is_blank(s: &str) -> (r: bool)
    ensures
        r == blank(s@),
{
    let v = text::to_chars(s);
    let mut i: usize = 0;
    while i < v.len()
        invariant
            i <= v@.len(),
            v@ == s@,
            forall|j: int| 0 <= j < i ==> xml_space(#[trigger] v@[j]),
        decreases v@.len() - i,
    {
        let c = v[i];
        if !(c == ' ' || c == '\t' || c == '\n' || c == '\r') {
            assert(!xml_space(s@[i as int]));
            return false;
        }
        i = i + 1;
    }
    true
}

/// Whether the text between two pieces of markup keeps its characters.
fn is_steady_run(run: &str, after_cdata: bool) -> (r: bool)
    ensures
        r == steady_run(run@, after_cdata),
{
    let v = text::to_chars(run);
    let at: usize = text::find_char(&v, 0, '\r');
    proof {
        assert(v@.skip(0) =~= v@);
        text::lemma_position(v@, '\r');
        if at < v@.len() {
            assert(run@[at as int] == '\r');
        }
    }
    at == v.len() && (v.len() == 0 || after_cdata || !is_blank(run))
}

/// Whether a text between two tags keeps its characters when it is written out and read back.
pub fn is_steady(s: &str) -> (r: bool)
    ensures
        r == steady(s@),
{
    is_steady_run(s, false)
}

/// Whether the texts directly below an element do.
pub fn has_steady_texts(el: &XmlElement) -> (r: bool)
    ensures
        r == steady_texts(el.tree().children),
{
    let ghost all = el.tree().children;
    let mut run = String::new();
    let mut after_cdata = false;
    let mut i: usize = 0;
    proof {
        assert(all.skip(0) =~= all);
        assert(run@ =~= Seq::<char>::empty());
    }
    while i < el.children.len()
        invariant
            i <= el.children@.len(),
            all == el.tree().children,
            steady_texts(all) == steady_from(all.skip(i as int), run@, after_cdata),
        decreases el.children@.len() - i,
    {
        proof {
            assert(all.skip(i as int)[0] == el.children@[i as int].branch());
            assert(all.skip(i as int).skip(1) =~= all.skip(i + 1));
        }
        if let XmlNode::Text(s) = &el.children[i] {
            run.append(s.as_str());
        } else {
            if !is_steady_run(run.as_str(), after_cdata) {
                return false;
            }
            after_cdata = match &el.children[i] {
                XmlNode::CData(d) => !is_blank(d.as_str()),
                _ => false,
            };
            run = String::new();
            proof {
                assert(run@ =~= Seq::<char>::empty());
            }
        }
        i = i + 1;
    }
    is_steady_run(run.as_str(), after_cdata)
}

fn is_name_start(c: char) -> (r: bool)
    ensures
        r == name_start(c),
{
    ('A' <= c && c <= 'Z') || c == '_' || ('a' <= c && c <= 'z') || ('\u{c0}' <= c && c <= '\u{d6}') || ('\u{d8}' <= c
        && c <= '\u{f6}') || ('\u{f8}' <= c && c <= '\u{2ff}') || ('\u{370}' <= c && c <= '\u{37d}') || ('\u{37f}' <= c
        && c <= '\u{1fff}') || ('\u{200c}' <= c && c <= '\u{200d}') || ('\u{2070}' <= c && c <= '\u{218f}') || (
    '\u{2c00}' <= c && c <= '\u{2fef}') || ('\u{3001}' <= c && c <= '\u{d7ff}') || ('\u{f900}' <= c && c <= '\u{fdcf}')
        || ('\u{fdf0}' <= c && c <= '\u{fffd}') || ('\u{10000}' <= c && c <= '\u{effff}')
}

fn is_name_part(c: char) -> (r: bool)
    ensures
        r == name_part(c),
{
    is_name_start(c) || c == '-' || c == '.' || ('0' <= c && c <= '9') || c == '\u{b7}' || ('\u{300}' <= c && c
        <= '\u{36f}') || ('\u{203f}' <= c && c <= '\u{2040}')
}

/// Whether a text can stand behind a prefix in a name.
fn is_name_tail(s: &str) -> (r: bool)
    ensures
        r == name_tail(s@),
{
    let v = text::to_chars(s);
    let mut i: usize = 0;
    while i < v.len()
        invariant
            i <= v@.len(),
            v@ == s@,
            forall|j: int| 0 <= j < i ==> name_part(#[trigger] v@[j]),
        decreases v@.len() - i,
    {
        if !is_name_part(v[i]) {
            assert(!name_part(s@[i as int]));
            return false;
        }
        i = i + 1;
    }
    v.len() > 0
}

/// Whether a text is a name without a prefix.
fn is_plain_name(s: &str) -> (r: bool)
    ensures
        r == plain_name(s@),
{
    let v = text::to_chars(s);
    is_name_tail(s) && is_name_start(v[0])
}

/// Whether a text is the target of a processing instruction.
fn is_target_name(s: &str) -> (r: bool)
    ensures
        r == target_name(s@),
{
    let v = text::to_chars(s);
    if v.len() == 0 || !(is_name_start(v[0]) || v[0] == ':') {
        return false;
    }
    let mut i: usize = 0;
    while i < v.len()
        invariant
            i <= v@.len(),
            v@ == s@,
            forall|j: int| 0 <= j < i ==> name_part(#[trigger] v@[j]) || v@[j] == ':',
        decreases v@.len() - i,
    {
        if !(is_name_part(v[i]) || v[i] == ':') {
            assert(!(name_part(s@[i as int]) || s@[i as int] == ':'));
            return false;
        }
        i = i + 1;
    }
    true
}

/// Whether a name is short enough to be read.
fn is_short_name(s: &str) -> (r: bool)
    requires
        s@.len() > 0,
    ensures
        r == short_name(s@),
{
    let v = text::to_chars(s);
    let start = text::substring(&v, 0, v.len() - 1);
    proof {
        assert(start@ =~= s@.drop_last());
    }
    start.as_str().as_bytes().len() <= LONGEST_NAME
}

/// Whether a namespace declaration can be read back.
fn is_portable_namespace(prefix: &str, uri: &str) -> (r: bool)
    ensures
        r == portable_namespace(prefix@, uri@),
{
    if text::same_text(prefix, "xml") || text::same_text(prefix, "xmlns") {
        return true;
    }
    if !is_xml_text(uri) {
        return false;
    }
    if text::same_text(prefix, "") {
        proof {
            reveal_strlit("");
        }
        return !text::same_text(uri, "xml") && !text::same_text(uri, "xmlns") && !text::same_text(
            uri,
            "http://www.w3.org/XML/1998/namespace",
        ) && !text::same_text(uri, "http://www.w3.org/2000/xmlns/");
    }
    let u = text::to_chars(uri);
    let name = text::cat2("xmlns:", prefix);
    is_name_tail(prefix) && u.len() > 0 && is_short_name(name.as_str())
}

/// The value that a key was given last.
fn last_value<'a>(entries: &'a Vec<(String, String)>, key: &str) -> (r: Option<&'a String>)
    ensures
        match r {
            Some(value) => {
                &&& mapped(text::pair_views(entries@)).contains_key(key@)
                &&& mapped(text::pair_views(entries@))[key@] == value@
            },
            None => !mapped(text::pair_views(entries@)).contains_key(key@),
        },
{
    let ghost all = text::pair_views(entries@);
    let mut r: Option<&'a String> = None;
    let mut i: usize = 0;
    while i < entries.len()
        invariant
            i <= entries@.len(),
            all == text::pair_views(entries@),
            match r {
                Some(value) => {
                    &&& mapped(all.take(i as int)).contains_key(key@)
                    &&& mapped(all.take(i as int))[key@] == value@
                },
                None => !mapped(all.take(i as int)).contains_key(key@),
            },
        decreases entries@.len() - i,
    {
        proof {
            assert(all.take(i + 1).drop_last() =~= all.take(i as int));
            assert(all.take(i + 1).last() == (entries@[i as int].0@, entries@[i as int].1@));
        }
        if text::same_text(entries[i].0.as_str(), key) {
            r = Some(&entries[i].1);
        }
        i = i + 1;
    }
    proof {
        assert(all.take(i as int) =~= all);
    }
    r
}

/// The keys of a map are those of its entries.
proof fn lemma_mapped(entries: Seq<(Seq<char>, Seq<char>)>)
    ensures
        forall|key: Seq<char>| #[trigger]
            mapped(entries).contains_key(key) <==> exists|i: int| 0 <= i < entries.len() && #[trigger] entries[i].0 == key,
    decreases entries.len(),
{
    if entries.len() > 0 {
        let earlier = entries.drop_last();
        lemma_mapped(earlier);
        assert forall|key: Seq<char>| #[trigger] mapped(entries).contains_key(key) implies exists|i: int|
            0 <= i < entries.len() && #[trigger] entries[i].0 == key by {
            if entries.last().0 == key {
                assert(entries[entries.len() - 1].0 == key);
            } else {
                assert(mapped(earlier).contains_key(key));
                let i = choose|i: int| 0 <= i < earlier.len() && #[trigger] earlier[i].0 == key;
                assert(entries[i].0 == key);
            }
        }
        assert forall|key: Seq<char>|
            (exists|i: int| 0 <= i < entries.len() && #[trigger] entries[i].0 == key) implies #[trigger] mapped(
            entries,
        ).contains_key(key) by {
            let i = choose|i: int| 0 <= i < entries.len() && #[trigger] entries[i].0 == key;
            if i < earlier.len() {
                assert(earlier[i].0 == key);
                assert(mapped(earlier).contains_key(key));
            }
        }
    }
}

/// Whether the namespace declarations among these entries can be read back.
fn are_portable_namespaces(entries: &Vec<(String, String)>) -> (r: bool)
    ensures
        r == (forall|p: Seq<char>| #[trigger]
            mapped(text::pair_views(entries@)).contains_key(p) ==> portable_namespace(
                p,
                mapped(text::pair_views(entries@))[p],
            )),
{
    let ghost all = text::pair_views(entries@);
    let ghost m = mapped(all);
    proof {
        lemma_mapped(all);
    }
    let mut i: usize = 0;
    while i < entries.len()
        invariant
            i <= entries@.len(),
            all == text::pair_views(entries@),
            m == mapped(all),
            forall|j: int| 0 <= j < all.len() ==> m.contains_key((#[trigger] all[j]).0),
            forall|j: int| 0 <= j < i ==> portable_namespace((#[trigger] all[j]).0, m[all[j].0]),
        decreases entries@.len() - i,
    {
        assert(all[i as int].0 == entries@[i as int].0@);
        if let Some(uri) = last_value(entries, entries[i].0.as_str()) {
            if !is_portable_namespace(entries[i].0.as_str(), uri.as_str()) {
                assert(m.contains_key(all[i as int].0));
                return false;
            }
        }
        i = i + 1;
    }
    true
}

/// `entries` with an entry for a key: in place of the one that is there, or at the end.
fn put(entries: &Vec<(String, String)>, key: &str, value: &str) -> (r: Vec<(String, String)>)
    ensures
        text::pair_views(r@) == with_entry(text::pair_views(entries@), key@, value@),
{
    let ghost all = text::pair_views(entries@);
    let mut out: Vec<(String, String)> = Vec::new();
    let mut found = false;
    let mut i: usize = 0;
    while i < entries.len()
        invariant
            i <= entries@.len(),
            all == text::pair_views(entries@),
            found == (exists|j: int| 0 <= j < i && #[trigger] all[j].0 == key@),
            out@.len() == i,
            forall|j: int|
                0 <= j < i ==> text::pair_views(out@)[j] == if (#[trigger] all[j]).0 == key@ {
                    (key@, value@)
                } else {
                    all[j]
                },
        decreases entries@.len() - i,
    {
        assert(all[i as int] == (entries@[i as int].0@, entries@[i as int].1@));
        let ghost before = text::pair_views(out@);
        if text::same_text(entries[i].0.as_str(), key) {
            out.push((key.to_owned(), value.to_owned()));
            found = true;
        } else {
            out.push((entries[i].0.as_str().to_owned(), entries[i].1.as_str().to_owned()));
        }
        proof {
            assert(text::pair_views(out@).drop_last() =~= before);
            assert(found || all[i as int].0 != key@);
            assert(found ==> all[i as int].0 == key@ || exists|j: int| 0 <= j < i && #[trigger] all[j].0 == key@);
        }
        i = i + 1;
    }
    let ghost replaced = text::pair_views(out@);
    if !found {
        out.push((key.to_owned(), value.to_owned()));
        proof {
            assert(replaced =~= all);
            assert(text::pair_views(out@) =~= all.push((key@, value@)));
        }
    } else {
        proof {
            assert(replaced =~= with_entry(all, key@, value@));
        }
    }
    out
}

/// The entries in order, each name at its first place with the value it was given last.
fn settle(entries: &Vec<(String, String)>) -> (r: Vec<(String, String)>)
    ensures
        text::pair_views(r@) == settled(text::pair_views(entries@)),
{
    let ghost all = text::pair_views(entries@);
    let mut out: Vec<(String, String)> = Vec::new();
    let mut i: usize = 0;
    proof {
        assert(text::pair_views(out@) =~= all.take(0));
    }
    while i < entries.len()
        invariant
            i <= entries@.len(),
            all == text::pair_views(entries@),
            text::pair_views(out@) == settled(all.take(i as int)),
        decreases entries@.len() - i,
    {
        proof {
            assert(all.take(i + 1).drop_last() =~= all.take(i as int));
            assert(all.take(i + 1).last() == (entries@[i as int].0@, entries@[i as int].1@));
        }
        out = put(&out, entries[i].0.as_str(), entries[i].1.as_str());
        i = i + 1;
    }
    proof {
        assert(all.take(i as int) =~= all);
    }
    out
}

/// Whether attributes can be read back, each name standing there once.
fn are_portable_attributes(entries: &Vec<(String, String)>) -> (r: bool)
    ensures
        r == (forall|i: int|
            0 <= i < entries@.len() ==> portable_attribute(#[trigger] text::pair_views(entries@)[i])),
{
    let ghost all = text::pair_views(entries@);
    let mut i: usize = 0;
    while i < entries.len()
        invariant
            i <= entries@.len(),
            all == text::pair_views(entries@),
            forall|j: int| 0 <= j < i ==> portable_attribute(#[trigger] all[j]),
        decreases entries@.len() - i,
    {
        assert(all[i as int] == (entries@[i as int].0@, entries@[i as int].1@));
        let name = entries[i].0.as_str();
        if !is_plain_name(name) || !is_short_name(name) || text::same_text(name, "xmlns") || !is_xml_text(
            entries[i].1.as_str(),
        ) {
            return false;
        }
        i = i + 1;
    }
    true
}

/// Whether an element, written out as `xmltree` does it, can be read back.
pub fn is_portable(el: &XmlElement) -> (r: bool)
    ensures
        r == portable(el.tree()),
    decreases el,
{
    match &el.prefix {
        Some(p) => {
            let declared = match &el.namespaces {
                Some(entries) => last_value(entries, p.as_str()).is_some(),
                None => false,
            };
            if !is_plain_name(p.as_str()) || text::same_text(p.as_str(), "xml") || text::same_text(p.as_str(), "xmlns")
                || !is_name_tail(el.name.as_str()) || !declared {
                return false;
            }
            let whole = text::cat3(p.as_str(), ":", el.name.as_str());
            if !is_short_name(whole.as_str()) {
                return false;
            }
        },
        None => {
            if !is_plain_name(el.name.as_str()) || !is_short_name(el.name.as_str()) {
                return false;
            }
        },
    }
    if let Some(entries) = &el.namespaces {
        if !are_portable_namespaces(entries) {
            proof {
                let m = el.tree().namespaces->0;
                assert(m == mapped(text::pair_views(entries@)));
                assert(exists|p: Seq<char>| #[trigger] m.contains_key(p) && !portable_namespace(p, m[p]));
            }
            return false;
        }
    }
    let attributes = settle(&el.attributes);
    if attributes.len() > 0x10000 || !are_portable_attributes(&attributes) {
        return false;
    }
    let ghost all = el.tree().children;
    let mut i: usize = 0;
    while i < el.children.len()
        invariant
            i <= el.children@.len(),
            all == el.tree().children,
            forall|j: int| 0 <= j < i ==> portable_branch(#[trigger] all[j]),
        decreases el.children@.len() - i,
    {
        assert(decreases_to!(el.children => el.children@));
        assert(all[i as int] == el.children@[i as int].branch());
        if !is_portable_node(&el.children[i]) {
            return false;
        }
        i = i + 1;
    }
    true
}

/// Whether a node can be read back where its element can.
fn is_portable_node(node: &XmlNode) -> (r: bool)
    ensures
        r == portable_branch(node.branch()),
    decreases node,
{
    match node {
        XmlNode::Element(el) => is_portable(el),
        XmlNode::Comment(s) => is_xml_text(s.as_str()),
        XmlNode::CData(s) => is_xml_text(s.as_str()),
        XmlNode::Text(s) => is_xml_text(s.as_str()),
        XmlNode::ProcessingInstruction(name, data) => {
            let lower = text::to_lower(name.as_str());
            let named = is_target_name(name.as_str()) && is_short_name(name.as_str()) && !text::same_text(
                lower.as_str(),
                "xml",
            );
            named && match data {
                Some(d) => is_xml_text(d.as_str()) && !text::contains(d.as_str(), "?>"),
                None => true,
            }
        },
    }
}

/// A portable element stays portable when an element below it, or it itself, is given a text of
/// XML characters.
pub proof fn law_portable_with_text(t: XmlTree, path: Seq<Seq<char>>, value: Seq<char>)
    requires
        portable(t),
        xml_text(value),
    ensures
        with_text(t, path, value) matches Some(changed) ==> portable(changed),
    decreases path.len(), t,
{
    if path.len() > 0 {
        if t.name != path[0] {
            lemma_portable_with_text_in(t.children, path, value);
        } else if path.len() > 1 {
            lemma_portable_with_text_in(t.children, path.skip(1), value);
        }
    }
}

proof fn lemma_portable_with_text_in(children: Seq<XmlBranch>, path: Seq<Seq<char>>, value: Seq<char>)
    requires
        forall|i: int| 0 <= i < children.len() ==> portable_branch(#[trigger] children[i]),
        xml_text(value),
        path.len() > 0,
    ensures
        with_text_in(children, path, value) matches Some(changed) ==> forall|i: int|
            0 <= i < changed.len() ==> portable_branch(#[trigger] changed[i]),
    decreases path.len(), children,
{
    if children.len() > 0 {
        let rest = children.skip(1);
        assert(portable_branch(children[0]));
        assert forall|i: int| 0 <= i < rest.len() implies portable_branch(#[trigger] rest[i]) by {
            assert(rest[i] == children[i + 1]);
        }
        if leads_to(children[0], path[0]) {
            law_portable_with_text(children[0]->Element_0, path, value);
        } else {
            lemma_portable_with_text_in(rest, path, value);
        }
    }
}

/// The first element of a name in a document that was read back is the one that was first
/// before it was written.
proof fn lemma_first_again(t: XmlTree, again: XmlTree, name: Seq<char>)
    requires
        rereads(t, again),
    ensures
        match first_named(t, name) {
            Some(found) => first_named(again, name) matches Some(other) && rereads(found, other),
            None => first_named(again, name) is None,
        },
    decreases t, again,
{
    if t.name != name {
        lemma_first_again_in(t.children, again.children, name);
    }
}

proof fn lemma_first_again_in(children: Seq<XmlBranch>, again: Seq<XmlBranch>, name: Seq<char>)
    requires
        rereads_all(children, again),
    ensures
        match first_named_in(children, name) {
            Some(found) => first_named_in(again, name) matches Some(other) && rereads(found, other),
            None => first_named_in(again, name) is None,
        },
    decreases children, again,
{
    if children.len() > 0 && children[0] !is Element {
        lemma_first_again_in(children.skip(1), again, name);
    } else if again.len() > 0 && again[0] !is Element {
        lemma_first_again_in(children, again.skip(1), name);
    } else if children.len() > 0 && again.len() > 0 {
        lemma_first_again(children[0]->Element_0, again[0]->Element_0, name);
        lemma_first_again_in(children.skip(1), again.skip(1), name);
    }
}

proof fn lemma_descend_again(found: Option<XmlTree>, other: Option<XmlTree>, rest: Seq<Seq<char>>)
    requires
        match found {
            Some(t) => other matches Some(again) && rereads(t, again),
            None => other is None,
        },
    ensures
        match descend(found, rest) {
            Some(t) => descend(other, rest) matches Some(again) && rereads(t, again),
            None => descend(other, rest) is None,
        },
    decreases rest.len(),
{
    if found is Some && rest.len() > 0 {
        let t = found->0;
        let again = other->0;
        lemma_first_again_in(t.children, again.children, rest[0]);
        lemma_descend_again(
            first_named_in(t.children, rest[0]),
            first_named_in(again.children, rest[0]),
            rest.skip(1),
        );
    }
}

/// A path leads in a document that was read back to what it led to before it was written.
pub proof fn lemma_located_again(t: XmlTree, again: XmlTree, path: Seq<Seq<char>>)
    requires
        rereads(t, again),
    ensures
        match locate(t, path) {
            Some(found) => locate(again, path) matches Some(other) && rereads(found, other),
            None => locate(again, path) is None,
        },
{
    if path.len() > 0 {
        lemma_first_again(t, again, path[0]);
        lemma_descend_again(first_named(t, path[0]), first_named(again, path[0]), path.skip(1));
    }
}

/// A steady text that was given to an element is found again in the document as it is read
/// back.
pub proof fn lemma_text_again(
    t: XmlTree,
    changed: XmlTree,
    again: XmlTree,
    path: Seq<Seq<char>>,
    value: Seq<char>,
)
    requires
        with_text(t, path, value) == Some(changed),
        rereads(changed, again),
        steady(value),
    ensures
        text_at(again, path) == Some(value),
{
    lemma_located(t, path, value);
    law_text_at_with_text(t, path, value);
    lemma_located_again(changed, again, path);
    lemma_steady_text(value);
}

/// A steady text at a path that a replacement keeps clear of is found again in the document as
/// it is read back.
pub proof fn lemma_other_text_again(
    t: XmlTree,
    again: XmlTree,
    path: Seq<Seq<char>>,
    value: Seq<char>,
    other: Seq<Seq<char>>,
)
    requires
        with_text(t, path, value) matches Some(changed) && rereads(changed, again),
        keeps_clear(t, path, other),
        locate(t, other) matches Some(found) ==> steady_texts(found.children),
    ensures
        text_at(again, other) == text_at(t, other),
{
    let changed = with_text(t, path, value)->0;
    lemma_located(t, path, value);
    lemma_located_again(changed, again, other);
    if other.len() > 0 {
        lemma_other_texts_stay(t, path, value, other);
    }
}

// ---------------------------------------------------------------------------
// Laws
// ---------------------------------------------------------------------------

/// The elements of a document in the order in which they begin: `t`, and then those below it.
pub open spec fn elements(t: XmlTree) -> Seq<XmlTree>
    decreases t,
{
    seq![t] + elements_in(t.children)
}

/// The elements among `children` and below them, in the order in which they begin.
pub open spec fn elements_in(children: Seq<XmlBranch>) -> Seq<XmlTree>
    decreases children,
{
    if children.len() == 0 {
        Seq::empty()
    } else {
        (match children[0] {
            XmlBranch::Element(c) => elements(c),
            _ => Seq::empty(),
        }) + elements_in(children.skip(1))
    }
}

/// The first element of a name is the one that begins first among all elements that have it, the
/// root among them; where none has it, there is none.
pub proof fn law_first_named(t: XmlTree, name: Seq<char>, n: int)
    requires
        0 <= n <= elements(t).len(),
        n < elements(t).len() ==> elements(t)[n].name == name,
        forall|i: int| 0 <= i < n ==> (#[trigger] elements(t)[i]).name != name,
    ensures
        n < elements(t).len() ==> first_named(t, name) == Some(elements(t)[n]),
        n == elements(t).len() ==> first_named(t, name) is None,
    decreases t,
{
    let below = elements_in(t.children);
    if n > 0 {
        assert(elements(t)[0].name != name);
        assert forall|i: int| 0 <= i < n - 1 implies (#[trigger] below[i]).name != name by {
            assert(elements(t)[i + 1] == below[i]);
        }
        law_first_named_below(t.children, name, n - 1);
    }
}

/// The first element of a name below another is the one that begins first among all that are
/// below it and have the name.
pub proof fn law_first_named_below(children: Seq<XmlBranch>, name: Seq<char>, n: int)
    requires
        0 <= n <= elements_in(children).len(),
        n < elements_in(children).len() ==> elements_in(children)[n].name == name,
        forall|i: int| 0 <= i < n ==> (#[trigger] elements_in(children)[i]).name != name,
    ensures
        n < elements_in(children).len() ==> first_named_in(children, name) == Some(elements_in(children)[n]),
        n == elements_in(children).len() ==> first_named_in(children, name) is None,
    decreases children,
{
    if children.len() > 0 {
        let all = elements_in(children);
        let rest = elements_in(children.skip(1));
        let first = match children[0] {
            XmlBranch::Element(c) => elements(c),
            _ => Seq::empty(),
        };
        let m = first.len() as int;
        assert(all =~= first + rest);
        if let XmlBranch::Element(c) = children[0] {
            let k = if n < m { n } else { m };
            assert forall|i: int| 0 <= i < k implies (#[trigger] first[i]).name != name by {
                assert(all[i] == first[i]);
            }
            if n < m {
                assert(all[n] == first[n]);
            }
            law_first_named(c, name, k);
        }
        if n >= m {
            assert forall|i: int| 0 <= i < n - m implies (#[trigger] rest[i]).name != name by {
                assert(all[i + m] == rest[i]);
            }
            law_first_named_below(children.skip(1), name, n - m);
        }
    }
}

/// A path of one segment leads to the first element of that name. A further segment leads to the
/// first element of its name below the one that the path leads to without it, and nowhere where
/// that leads nowhere.
pub proof fn law_locate(t: XmlTree, path: Seq<Seq<char>>, segment: Seq<char>)
    ensures
        locate(t, Seq::empty()) is None,
        locate(t, seq![segment]) == first_named(t, segment),
        path.len() > 0 ==> locate(t, path.push(segment)) == match locate(t, path) {
            Some(found) => first_named_in(found.children, segment),
            None => None,
        },
{
    assert(seq![segment].skip(1) =~= Seq::<Seq<char>>::empty());
    if path.len() > 0 {
        assert(path.push(segment).skip(1) =~= path.skip(1).push(segment));
        lemma_descend_push(first_named(t, path[0]), path.skip(1), segment);
    }
}

proof fn lemma_descend_push(found: Option<XmlTree>, rest: Seq<Seq<char>>, segment: Seq<char>)
    ensures
        descend(found, rest.push(segment)) == match descend(found, rest) {
            Some(t) => first_named_in(t.children, segment),
            None => None,
        },
    decreases rest.len(),
{
    reveal_with_fuel(descend, 2);
    if let Some(t) = found {
        if rest.len() == 0 {
            assert(rest.push(segment).skip(1) =~= Seq::<Seq<char>>::empty());
        } else {
            assert(rest.push(segment).skip(1) =~= rest.skip(1).push(segment));
            lemma_descend_push(first_named_in(t.children, rest[0]), rest.skip(1), segment);
        }
    }
}

/// The text of an element is made up of the texts that stand directly below it, in order, and of
/// nothing else: neither of what stands in elements below it nor of comments.
pub proof fn law_direct_text(a: Seq<XmlBranch>, b: Seq<XmlBranch>, branch: XmlBranch)
    ensures
        direct_text(a + b) == direct_text(a) + direct_text(b),
        branch matches XmlBranch::Text(s) ==> direct_text(seq![branch]) == s,
        branch !is Text ==> direct_text(seq![branch]).len() == 0,
    decreases b.len(),
{
    reveal_with_fuel(direct_text, 2);
    let one = seq![branch];
    assert(one.drop_last() =~= Seq::<XmlBranch>::empty());
    if let XmlBranch::Text(s) = branch {
        assert(direct_text(one) =~= s);
    }
    if b.len() > 0 {
        law_direct_text(a, b.drop_last(), branch);
        assert((a + b).drop_last() =~= a + b.drop_last());
        assert((a + b).last() == b.last());
        assert(direct_text(a + b) =~= direct_text(a) + direct_text(b));
    } else {
        assert(a + b =~= a);
        assert(direct_text(a) + direct_text(b) =~= direct_text(a));
    }
}

/// In a map of entries each key has the value that it was given last, and there is no other key.
pub proof fn law_mapped(entries: Seq<(Seq<char>, Seq<char>)>, key: Seq<char>, i: int)
    requires
        -1 <= i < entries.len(),
        i >= 0 ==> entries[i].0 == key,
        forall|k: int| i < k < entries.len() ==> (#[trigger] entries[k]).0 != key,
    ensures
        i >= 0 ==> mapped(entries).contains_pair(key, entries[i].1),
        i == -1 ==> !mapped(entries).contains_key(key),
    decreases entries.len(),
{
    if entries.len() > 0 && i < entries.len() - 1 {
        assert(entries[entries.len() - 1].0 != key);
        assert forall|k: int| i < k < entries.drop_last().len() implies (#[trigger] entries.drop_last()[k]).0
            != key by {
            assert(entries[k].0 != key);
        }
        law_mapped(entries.drop_last(), key, i);
    }
}

/// Among settled entries no name stands twice, and each has the value that it was given last;
/// the names are those that were given.
pub proof fn law_settled_entries(entries: Seq<(Seq<char>, Seq<char>)>)
    ensures
        ({
            let kept = settled(entries);
            &&& forall|i: int, j: int| 0 <= i < j < kept.len() ==> (#[trigger] kept[i]).0 != (#[trigger] kept[j]).0
            &&& forall|i: int| 0 <= i < kept.len() ==> mapped(entries).contains_pair((#[trigger] kept[i]).0, kept[i].1)
            &&& forall|key: Seq<char>| #[trigger] mapped(entries).contains_key(key) ==> exists|i: int|
                0 <= i < kept.len() && (#[trigger] kept[i]).0 == key
        }),
    decreases entries.len(),
{
    if entries.len() > 0 {
        let earlier = settled(entries.drop_last());
        let kept = settled(entries);
        let key = entries.last().0;
        let value = entries.last().1;
        law_settled_entries(entries.drop_last());
        if exists|i: int| 0 <= i < earlier.len() && #[trigger] earlier[i].0 == key {
            assert(forall|i: int| 0 <= i < kept.len() ==> (#[trigger] kept[i]).0 == earlier[i].0);
            assert forall|i: int, j: int| 0 <= i < j < kept.len() implies (#[trigger] kept[i]).0 != (
            #[trigger] kept[j]).0 by {
                assert(earlier[i].0 != earlier[j].0);
            }
            assert forall|i: int| 0 <= i < kept.len() implies mapped(entries).contains_pair(
                (#[trigger] kept[i]).0,
                kept[i].1,
            ) by {
                assert(mapped(entries.drop_last()).contains_pair(earlier[i].0, earlier[i].1));
            }
            assert forall|k: Seq<char>| #[trigger] mapped(entries).contains_key(k) implies exists|i: int|
                0 <= i < kept.len() && (#[trigger] kept[i]).0 == k by {
                if k == key {
                    let i = choose|i: int| 0 <= i < earlier.len() && #[trigger] earlier[i].0 == key;
                    assert(kept[i].0 == k);
                } else {
                    assert(mapped(entries.drop_last()).contains_key(k));
                    let i = choose|i: int| 0 <= i < earlier.len() && (#[trigger] earlier[i]).0 == k;
                    assert(kept[i].0 == k);
                }
            }
        } else {
            assert(kept =~= earlier.push((key, value)));
            assert forall|i: int, j: int| 0 <= i < j < kept.len() implies (#[trigger] kept[i]).0 != (
            #[trigger] kept[j]).0 by {
                assert(kept[i] == earlier[i]);
                if j < earlier.len() {
                    assert(kept[j] == earlier[j]);
                }
            }
            assert forall|i: int| 0 <= i < kept.len() implies mapped(entries).contains_pair(
                (#[trigger] kept[i]).0,
                kept[i].1,
            ) by {
                if i < earlier.len() {
                    assert(kept[i] == earlier[i]);
                    assert(mapped(entries.drop_last()).contains_pair(earlier[i].0, earlier[i].1));
                }
            }
            assert forall|k: Seq<char>| #[trigger] mapped(entries).contains_key(k) implies exists|i: int|
                0 <= i < kept.len() && (#[trigger] kept[i]).0 == k by {
                if k == key {
                    assert(kept[earlier.len() as int].0 == k);
                } else {
                    assert(mapped(entries.drop_last()).contains_key(k));
                    let i = choose|i: int| 0 <= i < earlier.len() && (#[trigger] earlier[i]).0 == k;
                    assert(kept[i].0 == k);
                }
            }
        }
    }
}

/// Entries with names of their own are settled as they are, in their order.
pub proof fn law_settled_keeps_order(entries: Seq<(Seq<char>, Seq<char>)>)
    requires
        forall|i: int, j: int| 0 <= i < j < entries.len() ==> (#[trigger] entries[i]).0 != (#[trigger] entries[j]).0,
    ensures
        settled(entries) == entries,
    decreases entries.len(),
{
    if entries.len() > 0 {
        let rest = entries.drop_last();
        assert forall|i: int, j: int| 0 <= i < j < rest.len() implies (#[trigger] rest[i]).0 != (
        #[trigger] rest[j]).0 by {
            assert(entries[i].0 != entries[j].0);
        }
        law_settled_keeps_order(rest);
        if exists|i: int| 0 <= i < rest.len() && #[trigger] rest[i].0 == entries.last().0 {
            let i = choose|i: int| 0 <= i < rest.len() && #[trigger] rest[i].0 == entries.last().0;
            assert(entries[i].0 != entries[entries.len() - 1].0);
        }
        assert(rest.push(entries.last()) =~= entries);
    }
}

/// A name holds no white space and no character of markup, and does not begin with a digit, a
/// hyphen or a full stop. What it may begin with, it may go on with.
pub proof fn law_names_hold_no_markup(c: char)
    ensures
        name_start(c) ==> name_part(c) && !('0' <= c <= '9') && c != '-' && c != '.',
        name_part(c) ==> xml_char(c) && !xml_space(c) && c != '<' && c != '>' && c != '&' && c != '/' && c != '='
            && c != '"' && c != '\'' && c != ':',
        'a' <= c <= 'z' || 'A' <= c <= 'Z' || c == '_' ==> name_start(c),
        '0' <= c <= '9' || c == '-' || c == '.' ==> name_part(c),
{
}

/// A text between two tags is steady where it has a visible character and no carriage return, and
/// where it is empty; it is not where it has a carriage return, nor where it is white space.
pub proof fn law_steady(s: Seq<char>, i: int)
    ensures
        steady(Seq::empty()),
        s.contains('\r') ==> !steady(s),
        0 <= i < s.len() && !xml_space(s[i]) && !s.contains('\r') ==> steady(s),
        s.len() > 0 && (forall|k: int| 0 <= k < s.len() ==> xml_space(#[trigger] s[k])) ==> !steady(s),
{
}

/// A change of the first element of one name leaves the search for the first element of another
/// name alone, unless one of that name stands in what is replaced.
pub proof fn law_keeps_clear_of_other_names(t: XmlTree, name: Seq<char>, other: Seq<char>)
    requires
        name != other,
        first_named(t, name) matches Some(found) && first_named_in(found.children, other) is None,
    ensures
        keeps_clear(t, seq![name], seq![other]),
    decreases t,
{
    let path = seq![name];
    let rest = seq![other];
    assert(path.skip(1) =~= Seq::<Seq<char>>::empty());
    assert(rest.skip(1) =~= Seq::<Seq<char>>::empty());
    if t.name != name && t.name != other {
        lemma_keeps_clear_of_other_names(t.children, name, other);
    }
}

proof fn lemma_keeps_clear_of_other_names(children: Seq<XmlBranch>, name: Seq<char>, other: Seq<char>)
    requires
        name != other,
        first_named_in(children, name) matches Some(found) && first_named_in(found.children, other) is None,
    ensures
        keeps_clear_in(children, seq![name], seq![other]),
    decreases children,
{
    if leads_to(children[0], name) {
        if leads_to(children[0], other) {
            law_keeps_clear_of_other_names(children[0]->Element_0, name, other);
        }
    } else if !leads_to(children[0], other) {
        lemma_keeps_clear_of_other_names(children.skip(1), name, other);
    }
}

/// What is portable has names for its elements and attributes, and characters of XML in all of
/// its texts; and what stands below it is portable too.
pub proof fn law_portable(t: XmlTree, i: int)
    requires
        portable(t),
        0 <= i < t.children.len(),
    ensures
        name_tail(t.name),
        t.prefix is None ==> name_start(t.name[0]),
        t.children[i] matches XmlBranch::Element(c) ==> portable(c),
        t.children[i] matches XmlBranch::Text(s) ==> xml_text(s),
        t.children[i] matches XmlBranch::CData(s) ==> xml_text(s),
        t.children[i] matches XmlBranch::Comment(s) ==> xml_text(s),
        forall|k: int|
            0 <= k < t.attributes.len() ==> plain_name((#[trigger] t.attributes[k]).0) && xml_text(t.attributes[k].1),
{
    assert(portable_branch(t.children[i]));
    assert forall|k: int| 0 <= k < t.attributes.len() implies plain_name((#[trigger] t.attributes[k]).0) && xml_text(
        t.attributes[k].1,
    ) by {
        assert(portable_attribute(t.attributes[k]));
    }
}

/// An element with a plain name, without namespaces and attributes, is portable where everything
/// below it is: elements that are, and texts and comments of the characters of XML.
pub proof fn law_plain_elements_are_portable(name: Seq<char>, children: Seq<XmlBranch>)
    requires
        plain_name(name),
        short_name(name),
        forall|i: int|
            0 <= i < children.len() ==> match #[trigger] children[i] {
                XmlBranch::Element(c) => portable(c),
                XmlBranch::Text(s) => xml_text(s),
                XmlBranch::CData(s) => xml_text(s),
                XmlBranch::Comment(s) => xml_text(s),
                XmlBranch::ProcessingInstruction(_, _) => false,
            },
    ensures
        portable(
            XmlTree { prefix: None, namespace: None, namespaces: None, name, attributes: Seq::empty(), children },
        ),
{
    let t = XmlTree { prefix: None, namespace: None, namespaces: None, name, attributes: Seq::empty(), children };
    assert forall|i: int| 0 <= i < t.children.len() implies portable_branch(#[trigger] t.children[i]) by {
        assert(t.children[i] == children[i]);
    }
}

/// An element that holds one text keeps it where the text is steady, and texts that stand next to
/// each other count as one. An element without texts has none to lose.
pub proof fn law_steady_texts(a: Seq<char>, b: Seq<char>, children: Seq<XmlBranch>)
    ensures
        steady_texts(seq![XmlBranch::Text(a)]) <==> steady(a),
        steady_texts(seq![XmlBranch::Text(a), XmlBranch::Text(b)]) <==> steady(a + b),
        (forall|i: int| 0 <= i < children.len() ==> (#[trigger] children[i]) !is Text) ==> steady_texts(children),
{
    reveal_with_fuel(steady_from, 3);
    let one = seq![XmlBranch::Text(a)];
    let two = seq![XmlBranch::Text(a), XmlBranch::Text(b)];
    assert(one.skip(1) =~= Seq::<XmlBranch>::empty());
    assert(two.skip(1) =~= seq![XmlBranch::Text(b)]);
    assert(seq![XmlBranch::Text(b)].skip(1) =~= Seq::<XmlBranch>::empty());
    assert(Seq::<char>::empty() + a =~= a);
    if forall|i: int| 0 <= i < children.len() ==> (#[trigger] children[i]) !is Text {
        lemma_no_texts(children, false);
    }
}

proof fn lemma_no_texts(children: Seq<XmlBranch>, after_cdata: bool)
    requires
        forall|i: int| 0 <= i < children.len() ==> (#[trigger] children[i]) !is Text,
    ensures
        steady_from(children, Seq::empty(), after_cdata),
    decreases children.len(),
{
    if children.len() > 0 {
        let rest = children.skip(1);
        assert forall|i: int| 0 <= i < rest.len() implies (#[trigger] rest[i]) !is Text by {
            assert(rest[i] == children[i + 1]);
        }
        assert(children[0] !is Text);
        lemma_no_texts(rest, true);
        lemma_no_texts(rest, false);
    }
}

} // verus!
