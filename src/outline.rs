//! The outline tree of a page and the cards in it.
use vstd::prelude::*;
use crate::identity::marker;
use crate::text::{chars_of, contains, find_lit};

verus! {

/// Where a node stands in the page: 1-indexed lines, as the parser reports
/// them (`end_line` is the line of the node's last character).
#[derive(Clone, Copy, Debug, PartialEq, Eq, Structural)]
pub struct Position {
    pub start_line: usize,
    pub end_line: usize,
}

/// The parts of a parsed page that cards are found by.
#[derive(Debug)]
pub enum OutlineNode {
    Root { children: Vec<OutlineNode> },
    List { children: Vec<OutlineNode>, position: Option<Position> },
    ListItem { children: Vec<OutlineNode>, position: Option<Position> },
    Paragraph { children: Vec<OutlineNode>, position: Option<Position> },
    Text { value: String, position: Option<Position> },
    Other { position: Option<Position> },
}

#[verifier::external_type_specification]
#[verifier::external_body]
pub struct ExMdastNode(markdown::mdast::Node);

/// The outline tree that the markdown parser builds for a page, where it
/// parses.
pub uninterp spec fn markdown_outline(s: Seq<char>) -> Option<OutlineNode>;

/// Relies on `markdown::mdast::Node::children` and `position`: the node as an
/// outline node, with its children in order.
#[verifier::external_body]
fn outline_node(n: &markdown::mdast::Node) -> OutlineNode {
    let children = n.children().map(|c| c.iter().map(outline_node).collect()).unwrap_or_default();
    let position = n.position().map(
        |p| Position { start_line: p.start.line, end_line: p.end.line },
    );
    match n {
        markdown::mdast::Node::Root(_) => OutlineNode::Root { children },
        markdown::mdast::Node::List(_) => OutlineNode::List { children, position },
        markdown::mdast::Node::ListItem(_) => OutlineNode::ListItem { children, position },
        markdown::mdast::Node::Paragraph(_) => OutlineNode::Paragraph { children, position },
        markdown::mdast::Node::Text(t) => OutlineNode::Text { value: t.value.clone(), position },
        _ => OutlineNode::Other { position },
    }
}

/// Relies on `markdown::to_mdast` with the default options (CommonMark): the
/// page's tree, or the parser's message.
#[verifier::external_body]
pub fn parse_outline(s: &str) -> (r: Result<OutlineNode, String>)
    ensures
        match r {
            Ok(t) => markdown_outline(s@) == Some(t),
            Err(_) => markdown_outline(s@) is None,
        },
{
    markdown::to_mdast(s, &markdown::ParseOptions::default()).map(|n| outline_node(&n)).map_err(
        |m| format!("{:?}", m),
    )
}

/// A list item whose first child is a paragraph with a text that holds the
/// card marker.
pub open spec fn is_card_item(n: OutlineNode) -> bool {
    match n {
        OutlineNode::ListItem { children, .. } => children@.len() > 0 && match children@[0] {
            OutlineNode::Paragraph { children: pc, .. } => exists|i: int|
                0 <= i < pc@.len() && #[trigger] text_has_marker(pc@[i]),
            _ => false,
        },
        _ => false,
    }
}

pub open spec fn text_has_marker(n: OutlineNode) -> bool {
    match n {
        OutlineNode::Text { value, .. } => contains(value@, marker()),
        _ => false,
    }
}

pub open spec fn child_count(n: OutlineNode) -> nat {
    match n {
        OutlineNode::Root { children } => children@.len(),
        OutlineNode::List { children, .. } => children@.len(),
        OutlineNode::ListItem { children, .. } => children@.len(),
        OutlineNode::Paragraph { children, .. } => children@.len(),
        _ => 0,
    }
}

/// The cards among the items of list `l` from the `i`-th on, in order: a card
/// item itself, and for any other item the cards in the lists among its
/// children. Cards are not looked for inside cards.
pub open spec fn cards_from(l: OutlineNode, i: nat) -> Seq<OutlineNode>
    decreases l, child_count(l) - i,
{
    match l {
        OutlineNode::List { children, .. } => if i >= children@.len() {
            seq![]
        } else {
            let item = children@[i as int];
            let here = if is_card_item(item) {
                seq![item]
            } else if item is ListItem {
                item_cards_from(item, 0)
            } else {
                seq![]
            };
            here + cards_from(l, i + 1)
        },
        _ => seq![],
    }
}

/// The cards in the lists among the children of item `item` from the `j`-th on.
pub open spec fn item_cards_from(item: OutlineNode, j: nat) -> Seq<OutlineNode>
    decreases item, child_count(item) - j,
{
    match item {
        OutlineNode::ListItem { children, .. } => if j >= children@.len() {
            seq![]
        } else {
            let c = children@[j as int];
            let here = if c is List {
                cards_from(c, 0)
            } else {
                seq![]
            };
            here + item_cards_from(item, j + 1)
        },
        _ => seq![],
    }
}

/// The top-level list of a page: the root's only child, or its second after
/// a leading paragraph. `Ok(None)` where the page is empty or one paragraph;
/// `Err` for any other shape.
pub open spec fn top_list(root: OutlineNode) -> Result<Option<OutlineNode>, ()> {
    match root {
        OutlineNode::Root { children } => if children@.len() == 0 || (children@.len() == 1
            && children@[0] is Paragraph) {
            Ok(None)
        } else if children@.len() == 1 && children@[0] is List {
            Ok(Some(children@[0]))
        } else if children@.len() == 2 && children@[0] is Paragraph && children@[1] is List {
            Ok(Some(children@[1]))
        } else {
            Err(())
        },
        _ => Err(()),
    }
}

/// The card items of a page, in order.
pub open spec fn page_cards(root: OutlineNode) -> Result<Seq<OutlineNode>, ()> {
    match top_list(root) {
        Ok(Some(l)) => Ok(cards_from(l, 0)),
        Ok(None) => Ok(seq![]),
        Err(_) => Err(()),
    }
}

/// The nodes that a vector of references points to.
pub open spec fn derefs(s: Seq<&OutlineNode>) -> Seq<OutlineNode> {
    s.map_values(|r: &OutlineNode| *r)
}

fn text_holds_marker(n: &OutlineNode) -> (r: bool)
    ensures
        r == text_has_marker(*n),
{
    match n {
        OutlineNode::Text { value, .. } => {
            let cs = chars_of(value.as_str());
            find_lit(cs.as_slice(), "#card", 0).is_some()
        },
        _ => false,
    }
}

fn any_text_has_marker(pc: &Vec<OutlineNode>) -> (r: bool)
    ensures
        r == exists|i: int| 0 <= i < pc@.len() && #[trigger] text_has_marker(pc@[i]),
{
    let mut i: usize = 0;
    while i < pc.len()
        invariant
            i <= pc@.len(),
            forall|k: int| 0 <= k < i ==> !text_has_marker(#[trigger] pc@[k]),
        decreases pc.len() - i,
    {
        if text_holds_marker(&pc[i]) {
            assert(text_has_marker(pc@[i as int]));
            return true;
        }
        i = i + 1;
    }
    false
}

/// Whether a list item is a card (see `is_card_item`).
pub fn list_item_is_card(li: &OutlineNode) -> (r: bool)
    ensures
        r == is_card_item(*li),
{
    match li {
        OutlineNode::ListItem { children, .. } => {
            if children.len() == 0 {
                return false;
            }
            match &children[0] {
                OutlineNode::Paragraph { children: pc, .. } => any_text_has_marker(pc),
                _ => false,
            }
        },
        _ => false,
    }
}

/// Appends the cards of list `l` from its `i`-th item on (see `cards_from`).
fn collect_cards_from<'a>(l: &'a OutlineNode, i: usize, out: &mut Vec<&'a OutlineNode>)
    requires
        i <= child_count(*l),
    ensures
        derefs(final(out)@) == derefs(old(out)@) + cards_from(*l, i as nat),
    decreases *l, child_count(*l) - i,
{
    match l {
        OutlineNode::List { children, .. } => {
            if i >= children.len() {
                assert(derefs(old(out)@) + cards_from(*l, i as nat) =~= derefs(old(out)@));
                return;
            }
            let item = &children[i];
            let ghost before = out@;
            if list_item_is_card(item) {
                out.push(item);
            } else if let OutlineNode::ListItem { .. } = item {
                collect_item_cards_from(item, 0, out);
            }
            let ghost mid = out@;
            collect_cards_from(l, i + 1, out);
            assert(derefs(out@) =~= derefs(old(out)@) + cards_from(*l, i as nat));
        },
        _ => {
            assert(derefs(old(out)@) + cards_from(*l, i as nat) =~= derefs(old(out)@));
        },
    }
}

/// Appends the cards in the lists among `item`'s children from the `j`-th on.
fn collect_item_cards_from<'a>(item: &'a OutlineNode, j: usize, out: &mut Vec<&'a OutlineNode>)
    requires
        j <= child_count(*item),
    ensures
        derefs(final(out)@) == derefs(old(out)@) + item_cards_from(*item, j as nat),
    decreases *item, child_count(*item) - j,
{
    match item {
        OutlineNode::ListItem { children, .. } => {
            if j >= children.len() {
                assert(derefs(old(out)@) + item_cards_from(*item, j as nat) =~= derefs(old(out)@));
                return;
            }
            let c = &children[j];
            if let OutlineNode::List { .. } = c {
                collect_cards_from(c, 0, out);
            }
            collect_item_cards_from(item, j + 1, out);
            assert(derefs(out@) =~= derefs(old(out)@) + item_cards_from(*item, j as nat));
        },
        _ => {
            assert(derefs(old(out)@) + item_cards_from(*item, j as nat) =~= derefs(old(out)@));
        },
    }
}

/// The card items of a page (see `page_cards`); `Err` where the page's
/// top-level shape is not a list.
pub fn find_card_list_items(root: &OutlineNode) -> (r: Result<Vec<&OutlineNode>, ()>)
    ensures
        match r {
            Ok(v) => page_cards(*root) == Ok::<Seq<OutlineNode>, ()>(derefs(v@)),
            Err(_) => page_cards(*root) is Err,
        },
{
    let mut out: Vec<&OutlineNode> = Vec::new();
    match root {
        OutlineNode::Root { children } => {
            let n = children.len();
            if n == 0 {
                assert(derefs(out@) =~= seq![]);
                return Ok(out);
            }
            let first_is_paragraph = matches!(children[0], OutlineNode::Paragraph { .. });
            if n == 1 && first_is_paragraph {
                assert(derefs(out@) =~= seq![]);
                return Ok(out);
            }
            let list: &OutlineNode = if n == 1 && matches!(children[0], OutlineNode::List { .. }) {
                &children[0]
            } else if n == 2 && first_is_paragraph && matches!(
                children[1],
                OutlineNode::List { .. }
            ) {
                &children[1]
            } else {
                return Err(());
            };
            collect_cards_from(list, 0, &mut out);
            assert(derefs(out@) =~= cards_from(*list, 0));
            Ok(out)
        },
        _ => Err(()),
    }
}

} // verus!
