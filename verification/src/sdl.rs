//! Scene description language: the parse tree and path lookup.

use vstd::prelude::*;
use vstd::string::StringSliceAdditionalSpecFns;
use crate::error::{Error, ErrorKind, plain_err};
use crate::fixed::Fixed;

pub mod into_scene;
pub mod parse;


verus! {

broadcast use vstd::std_specs::vec::group_vec_axioms, vstd::seq::group_seq_axioms;

/// The mathematical model of a parse-tree node.
pub ghost struct NodeV {
    pub name: Seq<u8>,
    pub values: Seq<int>,
    pub children: Seq<NodeV>,
}

/// A parse-tree node: a name, its numeric values, and its ordered
/// children.
#[derive(Debug)]
pub struct Node {
    pub name: Vec<u8>,
    pub values: Vec<Fixed>,
    pub children: Vec<Node>,
}

/// The models of a node's values.
pub open spec fn values_view(vs: Seq<Fixed>) -> Seq<int> {
    Seq::new(vs.len(), |i: int| vs[i]@)
}

/// The models of a sequence of nodes.
pub open spec fn children_view(cs: Seq<Node>) -> Seq<NodeV>
    decreases cs,
{
    if cs.len() == 0 {
        Seq::empty()
    } else {
        seq![cs[0]@] + children_view(cs.drop_first())
    }
}

pub proof fn lemma_children_view_push(cs: Seq<Node>, n: Node)
    ensures
        children_view(cs.push(n)) == children_view(cs).push(n@),
{
    lemma_children_view_len(cs);
    lemma_children_view_len(cs.push(n));
    assert forall|i: int| 0 <= i < cs.len() + 1 implies #[trigger] children_view(cs.push(n))[i]
        == children_view(cs).push(n@)[i] by {
        lemma_children_view_index(cs.push(n), i);
        if i < cs.len() {
            lemma_children_view_index(cs, i);
        }
    }
    assert(children_view(cs.push(n)) =~= children_view(cs).push(n@));
}

pub proof fn lemma_children_view_drop_last(cs: Seq<Node>)
    requires
        cs.len() > 0,
    ensures
        children_view(cs.drop_last()) == children_view(cs).drop_last(),
{
    lemma_children_view_len(cs);
    lemma_children_view_len(cs.drop_last());
    assert forall|i: int| 0 <= i < cs.len() - 1 implies #[trigger] children_view(
        cs.drop_last(),
    )[i] == children_view(cs).drop_last()[i] by {
        lemma_children_view_index(cs.drop_last(), i);
        lemma_children_view_index(cs, i);
    }
    assert(children_view(cs.drop_last()) =~= children_view(cs).drop_last());
}

impl View for Node {
    type V = NodeV;

    open spec fn view(&self) -> NodeV
        decreases self,
    {
        NodeV {
            name: self.name@,
            values: values_view(self.values@),
            children: children_view(self.children@),
        }
    }
}

/// The first child of `cs` from index `i` on whose name is `name`.
pub open spec fn find_child_from(cs: Seq<NodeV>, name: Seq<u8>, i: int) -> Option<NodeV>
    decreases cs.len() - i,
{
    if i < 0 || i >= cs.len() {
        None
    } else if cs[i].name == name {
        Some(cs[i])
    } else {
        find_child_from(cs, name, i + 1)
    }
}

/// Walk `segs` from index `i` on, at each step descending to the first
/// child named after the segment; `Err` carries the index of the first
/// segment with no match.
pub open spec fn get_path_from(n: NodeV, segs: Seq<Seq<u8>>, i: int) -> Result<NodeV, int>
    decreases segs.len() - i,
{
    if i < 0 || i >= segs.len() {
        Ok(n)
    } else {
        match find_child_from(n.children, segs[i], 0) {
            Some(c) => get_path_from(c, segs, i + 1),
            None => Err(i),
        }
    }
}

/// The node reached from `n` by the whitespace-separated path.
pub open spec fn get_path_spec(n: NodeV, path: Seq<u8>) -> Result<NodeV, int> {
    get_path_from(n, crate::sdl::parse::tokens(path), 0)
}

/// Whether a byte string holds the same bytes as a slice.
pub(crate) fn bytes_eq_slice(a: &Vec<u8>, b: &[u8]) -> (r: bool)
    ensures
        r == (a@ == b@),
{
    let n = a.len();
    if n != b.len() {
        proof {
            assert(a@ != b@);
        }
        return false;
    }
    let mut i: usize = 0;
    while i < n
        invariant
            n == a@.len() == b@.len(),
            0 <= i <= n,
            forall|k: int| 0 <= k < i ==> a@[k] == b@[k],
        decreases n - i,
    {
        if a[i] != *vstd::slice::slice_index_get(b, i) {
            return false;
        }
        i = i + 1;
    }
    proof {
        assert(a@ =~= b@);
    }
    true
}

/// Whether two byte strings hold the same bytes.
fn bytes_eq(a: &Vec<u8>, b: &Vec<u8>) -> (r: bool)
    ensures
        r == (a@ == b@),
{
    let n = a.len();
    if n != b.len() {
        proof {
            assert(a@ != b@);
        }
        return false;
    }
    let mut i: usize = 0;
    while i < n
        invariant
            n == a@.len() == b@.len(),
            0 <= i <= n,
            forall|k: int| 0 <= k < i ==> a@[k] == b@[k],
        decreases n - i,
    {
        if a[i] != b[i] {
            return false;
        }
        i = i + 1;
    }
    proof {
        assert(a@ =~= b@);
    }
    true
}

impl Node {
    /// The first child whose name is `name`, if any.
    #[verifier::loop_isolation(false)]
    fn find_child(&self, name: &Vec<u8>) -> (r: Option<&Node>)
        ensures
            match r {
                Some(c) => find_child_from(self@.children, name@, 0) == Some(c@),
                None => find_child_from(self@.children, name@, 0) is None,
            },
    {
        let n = self.children.len();
        proof {
            lemma_children_view_len(self.children@);
        }
        let mut j: usize = 0;
        while j < n
            invariant
                n == self.children@.len(),
                0 <= j <= n,
                children_view(self.children@).len() == n,
                find_child_from(self@.children, name@, 0) == find_child_from(
                    self@.children,
                    name@,
                    j as int,
                ),
            decreases n - j,
        {
            proof {
                lemma_children_view_index(self.children@, j as int);
            }
            if bytes_eq(&self.children[j].name, name) {
                return Some(&self.children[j]);
            }
            j = j + 1;
        }
        None
    }

    /// `path` is a whitespace-separated sequence of names. Starting
    /// from this node, each name selects the first child so named; the
    /// walk fails at the first name with no match.
    #[verifier::loop_isolation(false)]
    pub fn get_path(&self, path: &str) -> (r: Result<&Node, Error>)
        ensures
            match r {
                Ok(m) => get_path_spec(self@, path.spec_bytes()) == Ok::<NodeV, int>(m@),
                Err(e) => match get_path_spec(self@, path.spec_bytes()) {
                    Err(seg) => e == plain_err(
                        ErrorKind::MissingChild { segment: seg as usize },
                    ),
                    Ok(_) => false,
                },
            },
    {
        let pbytes = vstd::slice::slice_to_vec(path.as_bytes());
        let segs = crate::sdl::parse::tokenize(&pbytes);
        let ghost sv = crate::sdl::parse::tokens(path.spec_bytes());
        proof {
            assert(crate::sdl::parse::toks_view(segs@) == sv);
        }
        let nsegs = segs.len();
        let mut curr: &Node = self;
        let mut i: usize = 0;
        while i < nsegs
            invariant
                nsegs == sv.len(),
                0 <= i <= nsegs,
                forall|k: int| 0 <= k < sv.len() ==> #[trigger] sv[k] == segs@[k]@,
                get_path_from(self@, sv, 0) == get_path_from(curr@, sv, i as int),
            decreases nsegs - i,
        {
            match curr.find_child(&segs[i]) {
                Some(c) => {
                    curr = c;
                },
                None => {
                    proof {
                        assert(get_path_from(self@, sv, 0) == Err::<NodeV, int>(i as int));
                    }
                    return Err(Error::new(ErrorKind::MissingChild { segment: i }));
                },
            }
            i = i + 1;
        }
        Ok(curr)
    }
}

pub broadcast proof fn lemma_children_view_len(cs: Seq<Node>)
    ensures
        #[trigger] children_view(cs).len() == cs.len(),
    decreases cs.len(),
{
    if cs.len() == 0 {
        assert(children_view(cs) == Seq::<NodeV>::empty());
    } else {
        lemma_children_view_len(cs.drop_first());
        assert(children_view(cs) == seq![cs[0]@] + children_view(cs.drop_first()));
    }
}

pub broadcast proof fn lemma_children_view_index(cs: Seq<Node>, i: int)
    requires
        0 <= i < cs.len(),
    ensures
        #[trigger] children_view(cs)[i] == cs[i]@,
    decreases cs.len(),
{
    lemma_children_view_len(cs);
    lemma_children_view_len(cs.drop_first());
    assert(children_view(cs) == seq![cs[0]@] + children_view(cs.drop_first()));
    if i == 0 {
        assert(children_view(cs)[0] == (seq![cs[0]@] + children_view(cs.drop_first()))[0]);
    } else {
        lemma_children_view_index(cs.drop_first(), i - 1);
        assert(children_view(cs)[i] == children_view(cs.drop_first())[i - 1]);
        assert(cs.drop_first()[i - 1] == cs[i]);
    }
}

} // verus!
