//! A tree of allocations, grouped by the frames of their backtraces, as
//! JSON.

use vstd::prelude::*;
use crate::text::{append_chars, append_text, decimal_width, digits_of, text_of, to_decimal};
use crate::timestamp::Timestamp;

verus! {

/// One node of the tree: what is known of all allocations below it.
#[derive(Debug)]
pub struct Node {
    pub total_size: u64,
    pub total_count: u64,
    pub total_first_timestamp: Timestamp,
    pub total_last_timestamp: Timestamp,
    /// The frame of the node, written as JSON; the root has none.
    pub value: Option<String>,
    /// The places of the children among the nodes of the tree.
    pub children: Vec<usize>,
}

/// A tree. Its root is its first node.
#[derive(Debug)]
pub struct Tree {
    pub nodes: Vec<Node>,
}

/// A number written to the base ten.
pub open spec fn decimal(value: u64) -> Seq<char> {
    digits_of(value, 10, decimal_width(value), false)
}

impl Tree {
    /// Each child stands behind its parent among the nodes.
    pub open spec fn wf(&self) -> bool {
        forall|node: int, child: int|
            0 <= node < self.nodes.len() && 0 <= child < self.nodes[node].children.len() ==> node < (
            #[trigger] self.nodes[node].children[child]) < self.nodes.len()
    }

    /// Whether each child stands behind its parent among the nodes.
    pub fn validate(&self) -> (r: bool)
        ensures
            r == self.wf(),
    {
        let mut node: usize = 0;
        while node < self.nodes.len()
            invariant
                0 <= node <= self.nodes.len(),
                forall|n: int, child: int|
                    0 <= n < node && 0 <= child < self.nodes[n].children.len() ==> n < (
                    #[trigger] self.nodes[n].children[child]) < self.nodes.len(),
            decreases self.nodes.len() - node,
        {
            let children = &self.nodes[node].children;
            let mut child: usize = 0;
            while child < children.len()
                invariant
                    0 <= node < self.nodes.len(),
                    children == &self.nodes[node as int].children,
                    0 <= child <= children.len(),
                    forall|c: int|
                        0 <= c < child ==> node < (#[trigger] self.nodes[node as int].children[c])
                            < self.nodes.len(),
                decreases children.len() - child,
            {
                let place: usize = children[child];
                if place <= node || place >= self.nodes.len() {
                    assert(!(node < self.nodes[node as int].children[child as int]
                        < self.nodes.len()));
                    return false;
                }
                child += 1;
            }
            node += 1;
        }
        true
    }

    /// What stands in front of the children of a node.
    pub open spec fn head(&self, node: int) -> Seq<char> {
        let this = self.nodes[node];
        "{\"size\":"@ + decimal(this.total_size) + ",\"count\":"@ + decimal(this.total_count)
            + ",\"first\":"@ + decimal(this.total_first_timestamp.secs()) + ",\"last\":"@ + decimal(
            this.total_last_timestamp.secs(),
        ) + ","@ + match this.value {
            Some(value) => "\"value\":"@ + value@ + ","@,
            None => Seq::empty(),
        } + "\"children\":["@
    }

    /// A node with all that is below it, as JSON.
    pub open spec fn dumped(&self, node: int) -> Seq<char>
        decreases self.nodes.len() - node, 1int, 0int,
    {
        if 0 <= node < self.nodes.len() {
            self.head(node) + self.dumped_children(node, self.nodes[node].children.len() as int)
                + "]}"@
        } else {
            Seq::empty()
        }
    }

    /// The first `upto` children of a node, with commas in between.
    pub open spec fn dumped_children(&self, node: int, upto: int) -> Seq<char>
        decreases self.nodes.len() - node, 0int, upto,
    {
        if 0 <= node < self.nodes.len() && 0 < upto <= self.nodes[node].children.len() {
            let child = self.nodes[node].children[upto - 1] as int;
            let before = self.dumped_children(node, upto - 1);
            let comma = if upto == 1 { Seq::empty() } else { ","@ };
            if node < child < self.nodes.len() {
                before + comma + self.dumped(child)
            } else {
                before + comma
            }
        } else {
            Seq::empty()
        }
    }
}

fn append_number(text: &mut Vec<char>, value: u64)
    ensures
        final(text)@ == old(text)@ + decimal(value),
{
    let digits = to_decimal(value);
    append_text(text, digits.as_str());
}

/// Writes what stands in front of the children of a node.
fn write_head(tree: &Tree, node_id: usize, output: &mut Vec<char>)
    requires
        node_id < tree.nodes.len(),
    ensures
        final(output)@ == old(output)@ + tree.head(node_id as int),
{
    let node = &tree.nodes[node_id];
    let mut head: Vec<char> = Vec::new();
    append_text(&mut head, "{\"size\":");
    append_number(&mut head, node.total_size);
    append_text(&mut head, ",\"count\":");
    append_number(&mut head, node.total_count);
    append_text(&mut head, ",\"first\":");
    append_number(&mut head, node.total_first_timestamp.as_secs());
    append_text(&mut head, ",\"last\":");
    append_number(&mut head, node.total_last_timestamp.as_secs());
    append_text(&mut head, ",");
    let ghost fields = head@;
    assert(fields =~= "{\"size\":"@ + decimal(node.total_size) + ",\"count\":"@ + decimal(
        node.total_count,
    ) + ",\"first\":"@ + decimal(node.total_first_timestamp.secs()) + ",\"last\":"@ + decimal(
        node.total_last_timestamp.secs(),
    ) + ","@);
    let mut value: Vec<char> = Vec::new();
    match &node.value {
        Some(text) => {
            append_text(&mut value, "\"value\":");
            append_text(&mut value, text.as_str());
            append_text(&mut value, ",");
            assert(value@ =~= "\"value\":"@ + text@ + ","@);
        },
        None => {},
    }
    let ghost shown = value@;
    let ghost start = output@;
    append_chars(output, head.as_slice());
    append_chars(output, value.as_slice());
    append_text(output, "\"children\":[");
    assert(output@ =~= start + (fields + shown + "\"children\":["@));
}

/// Writes a node with all that is below it.
pub fn dump_node(tree: &Tree, node_id: usize, output: &mut Vec<char>)
    requires
        tree.wf(),
        node_id < tree.nodes.len(),
    ensures
        final(output)@ == old(output)@ + tree.dumped(node_id as int),
    decreases tree.nodes.len() - node_id,
{
    let node = &tree.nodes[node_id];
    let ghost start = output@;
    write_head(tree, node_id, output);
    let ghost opened = output@;
    let mut index: usize = 0;
    while index < node.children.len()
        invariant
            tree.wf(),
            node_id < tree.nodes.len(),
            node == &tree.nodes[node_id as int],
            0 <= index <= node.children.len(),
            output@ == opened + tree.dumped_children(node_id as int, index as int),
        decreases node.children.len() - index,
    {
        let ghost written = tree.dumped_children(node_id as int, index as int);
        if index != 0 {
            append_text(output, ",");
        }
        let ghost comma = if index == 0 { Seq::<char>::empty() } else { ","@ };
        assert(output@ =~= opened + (written + comma));
        let child: usize = node.children[index];
        assert(node_id < tree.nodes[node_id as int].children[index as int] < tree.nodes.len());
        dump_node(tree, child, output);
        assert(output@ =~= opened + (written + comma + tree.dumped(child as int)));
        index += 1;
    }
    let ghost children = tree.dumped_children(node_id as int, node.children.len() as int);
    append_text(output, "]}");
    assert(output@ =~= start + (tree.head(node_id as int) + children + "]}"@));
}

/// A tree as JSON.
pub fn dump_tree(tree: &Tree) -> (r: String)
    requires
        tree.wf(),
        tree.nodes.len() > 0,
    ensures
        r@ == tree.dumped(0),
{
    let mut output: Vec<char> = Vec::new();
    dump_node(tree, 0, &mut output);
    assert(output@ =~= tree.dumped(0));
    text_of(output.as_slice())
}

} // verus!
