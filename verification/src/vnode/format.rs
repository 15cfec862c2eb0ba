//! The text form of a resolved tree: tags with their properties, one line or indented.

use vstd::prelude::*;
use vstd::string::*;
use crate::vnode::{Attributes, Classes, Item};
use crate::vnode::static_node::{lemma_container_view, views_of, StaticItem, StaticNode, StaticView};

verus! {

/// The first `n` of `names`, with one space between two of them.
pub open spec fn joined(names: Seq<Seq<char>>, n: nat) -> Seq<char>
    decreases n,
{
    if n == 0 || n > names.len() {
        Seq::empty()
    } else if n == 1 {
        names[0]
    } else {
        joined(names, (n - 1) as nat) + " "@ + names[n - 1]
    }
}

/// One attribute as it stands in a tag: a space and the name, then `="` value `"` unless
/// the value is empty.
pub open spec fn attribute_text(entry: (Seq<char>, Seq<char>)) -> Seq<char> {
    if entry.1.len() == 0 {
        " "@ + entry.0
    } else {
        " "@ + entry.0 + "=\""@ + entry.1 + "\""@
    }
}

/// The first `n` of `entries` as they stand in a tag.
pub open spec fn attributes_text(entries: Seq<(Seq<char>, Seq<char>)>, n: nat) -> Seq<char>
    decreases n,
{
    if n == 0 || n > entries.len() {
        Seq::empty()
    } else {
        attributes_text(entries, (n - 1) as nat) + attribute_text(entries[n - 1])
    }
}

/// The characters of an optional string.
pub open spec fn text_of(value: Option<String>) -> Option<Seq<char>> {
    match value {
        Some(v) => Some(v@),
        None => None,
    }
}

/// The `id` or `key` property of a tag, if the item has one.
pub open spec fn property_text(label: Seq<char>, value: Option<Seq<char>>) -> Seq<char> {
    match value {
        Some(v) => " "@ + label + "=\""@ + v + "\""@,
        None => Seq::empty(),
    }
}

/// The `class` property of a tag: the names in ascending order; nothing where there is none.
pub open spec fn classes_text(names: Seq<Seq<char>>) -> Seq<char> {
    if names.len() == 0 {
        Seq::empty()
    } else {
        " class=\""@ + joined(names, names.len()) + "\""@
    }
}

/// The opening tag of an item: its name, then `id`, `key`, `class` and the attributes in
/// ascending order of their names.
pub open spec fn opening_tag<A>(item: Item<A>) -> Seq<char> {
    "<"@ + item.name@ + property_text("id"@, text_of(item.id)) + property_text(
        "key"@,
        text_of(item.key),
    ) + classes_text(item.classes.ordered()) + attributes_text(
        item.attributes.ordered(),
        item.attributes.ordered().len(),
    ) + ">"@
}

/// The closing tag of an item.
pub open spec fn closing_tag<A>(item: Item<A>) -> Seq<char> {
    "</"@ + item.name@ + ">"@
}

/// Four spaces for each level.
pub open spec fn indentation(level: nat) -> Seq<char>
    decreases level,
{
    if level == 0 {
        Seq::empty()
    } else {
        indentation((level - 1) as nat) + "    "@
    }
}

/// What stands before a node on its line: nothing in one-line form.
pub open spec fn margin_text(margin: Option<Seq<char>>) -> Seq<char> {
    match margin {
        Some(m) => m,
        None => Seq::empty(),
    }
}

/// The margin of the children of a node with this margin.
pub open spec fn deeper(margin: Option<Seq<char>>) -> Option<Seq<char>> {
    match margin {
        Some(m) => Some(m + "    "@),
        None => None,
    }
}

/// What separates lines: a line break in indented form, nothing in one-line form.
pub open spec fn line_break(margin: Option<Seq<char>>) -> Seq<char> {
    match margin {
        Some(_) => "\n"@,
        None => Seq::empty(),
    }
}

/// The text of a tree whose lines start with `margin`; one line with no separators where
/// `margin` is `None`.
pub open spec fn laid_out<A>(node: StaticView<A>, margin: Option<Seq<char>>) -> Seq<char>
    decreases node,
{
    match node {
        StaticView::Text(text) => margin_text(margin) + text.content@,
        StaticView::Item(item) => margin_text(margin) + opening_tag(item),
        StaticView::Container { item, layout, children } => {
            if children.len() == 0 {
                margin_text(margin) + opening_tag(item) + closing_tag(item)
            } else {
                margin_text(margin) + opening_tag(item) + children_text(
                    children,
                    margin,
                    children.len(),
                ) + line_break(margin) + margin_text(margin) + closing_tag(item)
            }
        },
    }
}

/// The first `n` of the children of a node with this margin, each after a line break.
pub open spec fn children_text<A>(
    children: Seq<StaticView<A>>,
    margin: Option<Seq<char>>,
    n: nat,
) -> Seq<char>
    decreases children, n,
{
    if n == 0 || n > children.len() {
        Seq::empty()
    } else {
        children_text(children, margin, (n - 1) as nat) + line_break(margin) + laid_out(
            children[n - 1],
            deeper(margin),
        )
    }
}

/// The text of a tree: indented from `indent` levels on, or on one line for `None`.
pub open spec fn formatted<A>(node: StaticView<A>, indent: Option<nat>) -> Seq<char> {
    match indent {
        Some(level) => laid_out(node, Some(indentation(level))),
        None => laid_out(node, None),
    }
}

/// Appends the `id` or `key` property of a tag.
fn write_property(out: &mut String, label: &str, value: Option<&str>)
    ensures
        final(out)@ == old(out)@ + property_text(
            label@,
            match value {
                Some(v) => Some(v@),
                None => None,
            },
        ),
{
    let ghost start = out@;
    match value {
        Some(v) => {
            out.append(" ");
            out.append(label);
            out.append("=\"");
            out.append(v);
            out.append("\"");
            assert(out@ =~= start + (" "@ + label@ + "=\""@ + v@ + "\""@));
        },
        None => {
            assert(out@ =~= start + Seq::<char>::empty());
        },
    }
}

/// Appends the `class` property of a tag.
fn write_classes(out: &mut String, classes: &Classes)
    ensures
        final(out)@ == old(out)@ + classes_text(classes.ordered()),
{
    let ghost start = out@;
    let n = classes.len();
    if n > 0 {
        out.append(" class=\"");
        let mut i: usize = 0;
        assert(out@ =~= start + " class=\""@ + joined(classes.ordered(), 0));
        while i < n
            invariant
                n == classes.ordered().len(),
                i <= n,
                out@ == start + " class=\""@ + joined(classes.ordered(), i as nat),
            decreases n - i,
        {
            if i > 0 {
                out.append(" ");
            }
            out.append(classes.get(i));
            i += 1;
            proof {
                assert(out@ =~= start + " class=\""@ + joined(classes.ordered(), i as nat));
            }
        }
        out.append("\"");
        assert(out@ =~= start + (" class=\""@ + joined(classes.ordered(), n as nat) + "\""@));
    } else {
        assert(out@ =~= start + Seq::<char>::empty());
    }
}

/// Appends the attributes of a tag.
fn write_attributes(out: &mut String, attributes: &Attributes)
    ensures
        final(out)@ == old(out)@ + attributes_text(
            attributes.ordered(),
            attributes.ordered().len(),
        ),
{
    let ghost start = out@;
    let n = attributes.len();
    let mut i: usize = 0;
    assert(out@ =~= start + attributes_text(attributes.ordered(), 0));
    while i < n
        invariant
            n == attributes.ordered().len(),
            i <= n,
            out@ == start + attributes_text(attributes.ordered(), i as nat),
        decreases n - i,
    {
        let ghost before = out@;
        let (name, value) = attributes.entry(i);
        out.append(" ");
        out.append(name);
        if !value.is_empty() {
            out.append("=\"");
            out.append(value);
            out.append("\"");
        }
        proof {
            assert(out@ =~= before + attribute_text(attributes.ordered()[i as int]));
        }
        i += 1;
        proof {
            assert(out@ =~= start + attributes_text(attributes.ordered(), i as nat));
        }
    }
}

/// Appends the opening tag of `item`.
pub fn format_opening_tag<A>(out: &mut String, item: &StaticItem<A>)
    ensures
        final(out)@ == old(out)@ + opening_tag(**item),
{
    let ghost start = out@;
    out.append("<");
    out.append(item.name());
    write_property(out, "id", item.id());
    write_property(out, "key", item.key());
    write_classes(out, item.classes());
    write_attributes(out, item.attributes());
    out.append(">");
    assert(out@ =~= start + opening_tag(**item));
}

/// Appends the closing tag of `item`.
pub fn format_closing_tag<A>(out: &mut String, item: &StaticItem<A>)
    ensures
        final(out)@ == old(out)@ + closing_tag(**item),
{
    let ghost start = out@;
    out.append("</");
    out.append(item.name());
    out.append(">");
    assert(out@ =~= start + closing_tag(**item));
}

/// Appends the indentation of `indent` levels; nothing for `None`.
pub fn add_indent(out: &mut String, indent: Option<usize>)
    ensures
        final(out)@ == old(out)@ + match indent {
            Some(level) => indentation(level as nat),
            None => Seq::empty(),
        },
{
    let ghost start = out@;
    match indent {
        Some(level) => {
            let mut i: usize = 0;
            assert(out@ =~= start + indentation(0));
            while i < level
                invariant
                    i <= level,
                    out@ == start + indentation(i as nat),
                decreases level - i,
            {
                out.append("    ");
                i += 1;
                proof {
                    assert(out@ =~= start + indentation(i as nat));
                }
            }
        },
        None => {
            assert(out@ =~= start + Seq::<char>::empty());
        },
    }
}

/// Appends the text of `node`, each line after `margin`; on one line where `margin` is `None`.
fn write_node<A>(out: &mut String, margin: Option<&str>, node: &StaticNode<A>)
    ensures
        final(out)@ == old(out)@ + laid_out(
            node@,
            match margin {
                Some(m) => Some(m@),
                None => None,
            },
        ),
    decreases node,
{
    let ghost start = out@;
    let ghost lead: Option<Seq<char>> = match margin {
        Some(m) => Some(m@),
        None => None,
    };
    if let Some(m) = margin {
        out.append(m);
    }
    assert(out@ =~= start + margin_text(lead));
    match node {
        StaticNode::Text(text) => {
            out.append(text.content());
            assert(out@ =~= start + laid_out(node@, lead));
        },
        StaticNode::Item(item) => {
            format_opening_tag(out, item);
            assert(out@ =~= start + laid_out(node@, lead));
        },
        StaticNode::Container(c) => {
            proof {
                lemma_container_view(*node);
            }
            let ghost kids = views_of(c.children@);
            format_opening_tag(out, &c.item);
            let ghost head = out@;
            if c.children.len() > 0 {
                let inner: Option<String> = match margin {
                    Some(m) => Some(String::from_str(m).concat("    ")),
                    None => None,
                };
                let mut i: usize = 0;
                assert(out@ =~= head + children_text(kids, lead, 0));
                while i < c.children.len()
                    invariant
                        node is Container,
                        node->Container_0 == c,
                        kids == views_of(c.children@),
                        i <= c.children@.len(),
                        lead == match margin {
                            Some(m) => Some(m@),
                            None => None::<Seq<char>>,
                        },
                        match inner {
                            Some(s) => deeper(lead) == Some(s@),
                            None => deeper(lead) == None::<Seq<char>>,
                        },
                        out@ == head + children_text(kids, lead, i as nat),
                    decreases c.children@.len() - i,
                {
                    if margin.is_some() {
                        out.append("\n");
                    }
                    match &inner {
                        Some(s) => write_node(out, Some(s.as_str()), &c.children[i]),
                        None => write_node(out, None, &c.children[i]),
                    }
                    i += 1;
                    proof {
                        assert(out@ =~= head + children_text(kids, lead, i as nat));
                    }
                }
                if let Some(m) = margin {
                    out.append("\n");
                    out.append(m);
                }
            }
            format_closing_tag(out, &c.item);
            assert(out@ =~= start + laid_out(node@, lead));
        },
    }
}

/// Appends the text of `node`: indented from `indent` levels on, or on one line for `None`.
pub fn format_with_indent<A>(out: &mut String, indent: Option<usize>, node: &StaticNode<A>)
    ensures
        final(out)@ == old(out)@ + formatted(
            node@,
            match indent {
                Some(level) => Some(level as nat),
                None => None,
            },
        ),
{
    match indent {
        Some(_) => {
            let mut margin = String::new();
            add_indent(&mut margin, indent);
            assert(margin@ =~= indentation(indent->0 as nat));
            write_node(out, Some(margin.as_str()), node);
        },
        None => {
            write_node(out, None, node);
        },
    }
}

impl<A> StaticNode<A> {
    /// The tree on one line, with nothing between siblings.
    pub fn to_string(&self) -> (r: String)
        ensures
            r@ == formatted(self@, None),
    {
        let mut out = String::new();
        format_with_indent(&mut out, None, self);
        assert(out@ =~= formatted(self@, None));
        out
    }

    /// The tree with one node on each line, indented by four spaces for each level.
    pub fn to_pretty_string(&self) -> (r: String)
        ensures
            r@ == formatted(self@, Some(0nat)),
    {
        let mut out = String::new();
        format_with_indent(&mut out, Some(0), self);
        assert(out@ =~= formatted(self@, Some(0nat)));
        out
    }
}

} // verus!
