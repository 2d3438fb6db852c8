use vstd::prelude::*;

verus! {

/// A node of a model's entity tree: an optional mesh and child entities.
pub struct Entity {
    pub name: Option<String>,
    pub mesh_index: Option<usize>,
    pub children: Vec<usize>,
}

/// An indexed triangle list drawn with one material.
#[derive(Clone, Copy, Debug, PartialEq, Eq, Structural)]
pub struct Primitive {
    pub index_count: u32,
    pub material_index: usize,
}

/// A mesh: its primitives in order, and whether it carries an animated
/// transform.
pub struct Mesh {
    pub name: Option<String>,
    pub primitives: Vec<Primitive>,
    pub animated: bool,
}

/// A model: entities under a synthetic root, meshes, and how many
/// materials there are.
pub struct Model {
    pub root_entity: Entity,
    pub entities: Vec<Entity>,
    pub meshes: Vec<Mesh>,
    pub material_count: usize,
}

/// Why a traversal stopped.
#[derive(Clone, Copy, Debug, PartialEq, Eq, Structural)]
pub enum TraversalError {
    /// A child index that names no entity.
    InvalidEntity(usize),
    /// An entity reached a second time: the graph is not a tree.
    Revisit(usize),
    /// An entity's mesh index that names no mesh.
    InvalidMesh(usize),
    /// A primitive's material index that names no material.
    InvalidMaterial(usize),
}

/// The children of the root (`p == -1`) or of entity `p`.
pub open spec fn children_of(m: &Model, p: int) -> Seq<usize> {
    if p == -1 {
        m.root_entity.children@
    } else {
        m.entities@[p].children@
    }
}

/// Position `k` of the children list of the root (`p == -1`) or of entity `p`.
pub open spec fn is_occurrence(m: &Model, p: int, k: int) -> bool {
    &&& p == -1 || 0 <= p < m.entities@.len()
    &&& 0 <= k < children_of(m, p).len()
}

/// Every child index names an entity.
pub open spec fn child_indices_valid(m: &Model) -> bool {
    forall|p: int, k: int| is_occurrence(m, p, k) ==> (#[trigger] children_of(m, p)[k]) < m.entities@.len()
}

/// No entity is listed as a child twice, under one parent or two.
pub open spec fn occurrences_unique(m: &Model) -> bool {
    forall|p1: int, k1: int, p2: int, k2: int|
        is_occurrence(m, p1, k1) && is_occurrence(m, p2, k2)
        && #[trigger] children_of(m, p1)[k1] == #[trigger] children_of(m, p2)[k2]
        ==> p1 == p2 && k1 == k2
}

/// The entity graph is a tree under the root: valid indices, no entity
/// listed twice. (A cycle reachable from the root lists some entity twice.)
pub open spec fn tree_shaped(m: &Model) -> bool {
    child_indices_valid(m) && occurrences_unique(m)
}

/// `order` visits the entities reachable from the root, each once, every
/// entity after the entity (or root) that lists it.
pub open spec fn visits_tree(m: &Model, order: Seq<usize>) -> bool {
    &&& order.no_duplicates()
    &&& forall|i: int| 0 <= i < order.len() ==> (#[trigger] order[i]) < m.entities@.len()
    &&& forall|k: int| 0 <= k < m.root_entity.children@.len() ==> order.contains(#[trigger] m.root_entity.children@[k])
    &&& forall|i: int, k: int| 0 <= i < order.len() && 0 <= k < m.entities@[order[i] as int].children@.len()
        ==> order.contains(#[trigger] m.entities@[#[trigger] order[i] as int].children@[k])
    &&& forall|i: int| 0 <= i < order.len() ==> m.root_entity.children@.contains(#[trigger] order[i])
        || exists|j: int| 0 <= j < i && m.entities@[order[j] as int].children@.contains(order[i])
}

/// `x` is visited before `y`.
pub open spec fn visited_before(order: Seq<usize>, x: usize, y: usize) -> bool {
    exists|a: int, b: int| 0 <= a < b < order.len() && order[a] == x && order[b] == y
}

/// In `order`, the children of the root and of every visited entity appear
/// in list order.
pub open spec fn siblings_in_order(m: &Model, order: Seq<usize>) -> bool {
    &&& forall|j: int, k: int| 0 <= j < k < m.root_entity.children@.len()
        ==> visited_before(order, #[trigger] m.root_entity.children@[j], #[trigger] m.root_entity.children@[k])
    &&& forall|i: int, j: int, k: int| 0 <= i < order.len() && 0 <= j < k < m.entities@[order[i] as int].children@.len()
        ==> visited_before(order, #[trigger] m.entities@[order[i] as int].children@[j], #[trigger] m.entities@[order[i] as int].children@[k])
}

/// Number of `false` entries.
pub open spec fn count_false(s: Seq<bool>) -> nat
    decreases s.len(),
{
    if s.len() == 0 {
        0
    } else {
        count_false(s.drop_last()) + if s.last() { 0nat } else { 1nat }
    }
}

proof fn lemma_count_false_update(s: Seq<bool>, i: int)
    requires
        0 <= i < s.len(),
        !s[i],
    ensures
        count_false(s.update(i, true)) + 1 == count_false(s),
    decreases s.len(),
{
    let u = s.update(i, true);
    if i == s.len() - 1 {
        assert(u.drop_last() =~= s.drop_last());
    } else {
        assert(u.drop_last() =~= s.drop_last().update(i, true));
        lemma_count_false_update(s.drop_last(), i);
    }
}

/// When every listing of the root and of each visited entity claimed its
/// entity, and an entity claimed through an earlier listing of the same
/// parent is always visited earlier, siblings are visited in list order.
proof fn lemma_siblings_in_order(m: &Model, order: Seq<usize>, marked: Seq<bool>, claim: Map<usize, (int, int)>)
    requires
        marked.len() == m.entities@.len(),
        visits_tree(m, order),
        forall|e: int| 0 <= e < marked.len() ==> (#[trigger] marked[e] <==> order.contains(e as usize)),
        forall|k: int| 0 <= k < m.root_entity.children@.len()
            ==> claim[#[trigger] m.root_entity.children@[k]] == (-1int, k),
        forall|i: int, k: int| 0 <= i < order.len() && 0 <= k < m.entities@[order[i] as int].children@.len()
            ==> claim[#[trigger] m.entities@[#[trigger] order[i] as int].children@[k]] == (order[i] as int, k),
        forall|i2: int, e1: usize| 0 <= i2 < order.len() && #[trigger] marked[e1 as int] && e1 < marked.len()
            && claim[e1].0 == claim[#[trigger] order[i2]].0 && claim[e1].1 < claim[order[i2]].1
            ==> exists|i1: int| 0 <= i1 < i2 && order[i1] == e1,
    ensures
        siblings_in_order(m, order),
{
    assert forall|j: int, k: int| 0 <= j < k < m.root_entity.children@.len()
        implies visited_before(order, #[trigger] m.root_entity.children@[j], #[trigger] m.root_entity.children@[k]) by {
        let cj = m.root_entity.children@[j];
        let ck = m.root_entity.children@[k];
        assert(order.contains(ck) && order.contains(cj));
        let b = choose|b: int| 0 <= b < order.len() && order[b] == ck;
        let a0 = choose|a: int| 0 <= a < order.len() && order[a] == cj;
        assert(order[a0] < m.entities@.len());
        assert(marked[cj as int]);
        let a = choose|a: int| 0 <= a < b && order[a] == cj;
        assert(0 <= a < b < order.len() && order[a] == cj && order[b] == ck);
    }
    assert forall|i: int, j: int, k: int| 0 <= i < order.len() && 0 <= j < k < m.entities@[order[i] as int].children@.len()
        implies visited_before(order, #[trigger] m.entities@[order[i] as int].children@[j], #[trigger] m.entities@[order[i] as int].children@[k]) by {
        let cj = m.entities@[order[i] as int].children@[j];
        let ck = m.entities@[order[i] as int].children@[k];
        assert(order.contains(ck) && order.contains(cj));
        let b = choose|b: int| 0 <= b < order.len() && order[b] == ck;
        let a0 = choose|a: int| 0 <= a < order.len() && order[a] == cj;
        assert(order[a0] < m.entities@.len());
        assert(marked[cj as int]);
        let a = choose|a: int| 0 <= a < b && order[a] == cj;
        assert(0 <= a < b < order.len() && order[a] == cj && order[b] == ck);
    }
}

/// `x` lists `y` among its children.
pub open spec fn lists(m: &Model, x: usize, y: usize) -> bool {
    m.entities@[x as int].children@.contains(y)
}

/// Depth-first pre-order: whatever is visited between an entity and one of
/// its children lies in that entity's subtree, so it was listed by an entity
/// visited at or after the parent.
pub open spec fn preorder_nested(m: &Model, order: Seq<usize>) -> bool {
    forall|a: int, b: int, c: int| #![trigger lists(m, order[a], order[b]), order[c]]
        0 <= a < c < b < order.len() && lists(m, order[a], order[b])
        ==> exists|a2: int| a <= a2 < c && lists(m, order[a2], order[c])
}

/// Every marked entity knows where its parent stands in `order` (-1 for the
/// root).
#[verifier::opaque]
spec fn parents_placed(marked: Seq<bool>, claim: Map<usize, (int, int)>, ppos: Map<usize, int>, order: Seq<usize>) -> bool {
    forall|e: usize| #[trigger] marked[e as int] && (e as int) < marked.len() ==> ppos.contains_key(e)
        && -1 <= ppos[e] < order.len()
        && (claim[e].0 == -1 <==> ppos[e] == -1)
        && (ppos[e] != -1 ==> order[ppos[e]] == claim[e].0 as usize)
}

/// The walk leaves no subtree before it is finished.
#[verifier::opaque]
spec fn walk_nested(stack: Seq<usize>, order: Seq<usize>, ppos: Map<usize, int>) -> bool {
    &&& forall|i: int, j: int| 0 <= i < j < stack.len() ==> ppos[#[trigger] stack[i]] <= ppos[#[trigger] stack[j]]
    &&& forall|i: int, c: int| 0 <= i < stack.len() && ppos[stack[i]] < c < order.len()
        ==> ppos[#[trigger] order[c]] >= ppos[#[trigger] stack[i]]
    &&& forall|b: int| 0 <= b < order.len() ==> ppos[#[trigger] order[b]] < b
    &&& forall|b: int, c: int| 0 <= b < order.len() && ppos[order[b]] < c < b
        ==> ppos[#[trigger] order[c]] >= ppos[#[trigger] order[b]]
}

proof fn lemma_walk_push(
    marked: Seq<bool>, claim: Map<usize, (int, int)>, ppos: Map<usize, int>,
    stack: Seq<usize>, order: Seq<usize>, c: usize, p: int, k: int, q: int,
)
    requires
        parents_placed(marked, claim, ppos, order),
        walk_nested(stack, order, ppos),
        forall|e: int| 0 <= e < marked.len() ==> (#[trigger] marked[e] <==> (stack.contains(e as usize) || order.contains(e as usize))),
        forall|i: int| 0 <= i < stack.len() ==> (#[trigger] stack[i] as int) < marked.len(),
        forall|i: int| 0 <= i < order.len() ==> (#[trigger] order[i] as int) < marked.len(),
        (c as int) < marked.len(),
        !marked[c as int],
        p == -1 ==> order.len() == 0,
        p != -1 ==> order.len() > 0 && order.last() == p as usize,
        q == if p == -1 { -1 } else { order.len() - 1 },
    ensures
        parents_placed(marked.update(c as int, true), claim.insert(c, (p, k)), ppos.insert(c, q), order),
        walk_nested(stack.push(c), order, ppos.insert(c, q)),
{
    reveal(parents_placed);
    reveal(walk_nested);
    let m1 = marked.update(c as int, true);
    let c1 = claim.insert(c, (p, k));
    let p1 = ppos.insert(c, q);
    let s1 = stack.push(c);
    assert forall|e: usize| #[trigger] m1[e as int] && (e as int) < m1.len() implies p1.contains_key(e)
        && -1 <= p1[e] < order.len()
        && (c1[e].0 == -1 <==> p1[e] == -1)
        && (p1[e] != -1 ==> order[p1[e]] == c1[e].0 as usize) by {
        if e != c {
            assert(marked[e as int]);
        }
    }
    assert forall|x: int| 0 <= x < stack.len() implies stack[x] != c && p1[#[trigger] stack[x]] == ppos[stack[x]]
        && -1 <= ppos[stack[x]] < order.len() by {
        assert(stack.contains(stack[x]));
        assert(marked[stack[x] as int]);
    }
    assert forall|x: int| 0 <= x < order.len() implies order[x] != c && p1[#[trigger] order[x]] == ppos[order[x]] by {
        assert(order.contains(order[x]));
        assert(marked[order[x] as int]);
    }
    assert forall|i: int, j: int| 0 <= i < j < s1.len() implies p1[#[trigger] s1[i]] <= p1[#[trigger] s1[j]] by {
        assert(s1[i] == stack[i]);
        if j < stack.len() {
            assert(s1[j] == stack[j]);
        }
    }
    assert forall|i: int, c2: int| 0 <= i < s1.len() && p1[s1[i]] < c2 < order.len()
        implies p1[#[trigger] order[c2]] >= p1[#[trigger] s1[i]] by {
        if i < stack.len() {
            assert(s1[i] == stack[i]);
        }
    }
}

proof fn lemma_walk_pop(
    marked: Seq<bool>, claim: Map<usize, (int, int)>, ppos: Map<usize, int>,
    stack: Seq<usize>, order: Seq<usize>,
)
    requires
        parents_placed(marked, claim, ppos, order),
        walk_nested(stack, order, ppos),
        stack.len() > 0,
        forall|i: int| 0 <= i < stack.len() ==> (#[trigger] stack[i] as int) < marked.len() && marked[stack[i] as int],
        forall|i: int| 0 <= i < order.len() ==> (#[trigger] order[i] as int) < marked.len() && marked[order[i] as int],
    ensures
        parents_placed(marked, claim, ppos, order.push(stack.last())),
        walk_nested(stack.drop_last(), order.push(stack.last()), ppos),
{
    reveal(parents_placed);
    reveal(walk_nested);
    let x = stack.last();
    let o1 = order.push(x);
    let s1 = stack.drop_last();
    let top = stack.len() - 1;
    assert(stack[top] == x);
    assert forall|e: usize| #[trigger] marked[e as int] && (e as int) < marked.len() implies ppos.contains_key(e)
        && -1 <= ppos[e] < o1.len()
        && (claim[e].0 == -1 <==> ppos[e] == -1)
        && (ppos[e] != -1 ==> o1[ppos[e]] == claim[e].0 as usize) by {
        if ppos[e] != -1 {
            assert(o1[ppos[e]] == order[ppos[e]]);
        }
    }
    assert forall|i: int, j: int| 0 <= i < j < s1.len() implies ppos[#[trigger] s1[i]] <= ppos[#[trigger] s1[j]] by {
        assert(s1[i] == stack[i] && s1[j] == stack[j]);
    }
    assert forall|i: int, c2: int| 0 <= i < s1.len() && ppos[s1[i]] < c2 < o1.len()
        implies ppos[#[trigger] o1[c2]] >= ppos[#[trigger] s1[i]] by {
        assert(s1[i] == stack[i]);
        assert(marked[stack[i] as int]);
        if c2 < order.len() {
            assert(o1[c2] == order[c2]);
        } else {
            assert(o1[c2] == x);
            assert(ppos[stack[i]] <= ppos[stack[top]]);
        }
    }
    assert forall|b: int| 0 <= b < o1.len() implies ppos[#[trigger] o1[b]] < b by {
        if b < order.len() {
            assert(o1[b] == order[b]);
        }
    }
    assert forall|b: int, c2: int| 0 <= b < o1.len() && ppos[o1[b]] < c2 < b
        implies ppos[#[trigger] o1[c2]] >= ppos[#[trigger] o1[b]] by {
        if b < order.len() {
            assert(o1[b] == order[b]);
            assert(marked[order[b] as int]);
        } else {
            assert(marked[stack[top] as int]);
        }
        assert(o1[c2] == order[c2]);
        if b < order.len() {
        } else {
            assert(ppos[stack[top]] < c2 < order.len());
        }
    }
}

/// When every listing of a visited entity claimed its entity, the walk's
/// nesting of subtrees is depth-first pre-order.
proof fn lemma_preorder(
    m: &Model, marked: Seq<bool>, claim: Map<usize, (int, int)>, ppos: Map<usize, int>, order: Seq<usize>,
)
    requires
        marked.len() == m.entities@.len(),
        m.entities@.len() <= usize::MAX,
        parents_placed(marked, claim, ppos, order),
        walk_nested(Seq::empty(), order, ppos),
        order.no_duplicates(),
        forall|i: int| 0 <= i < order.len() ==> (#[trigger] order[i] as int) < marked.len() && marked[order[i] as int],
        forall|e: usize| #[trigger] marked[e as int] && (e as int) < marked.len() ==> is_occurrence(m, claim[e].0, claim[e].1)
            && children_of(m, claim[e].0)[claim[e].1] == e,
        forall|i: int, k: int| 0 <= i < order.len() && 0 <= k < m.entities@[order[i] as int].children@.len()
            ==> claim[#[trigger] m.entities@[#[trigger] order[i] as int].children@[k]] == (order[i] as int, k),
    ensures
        preorder_nested(m, order),
{
    reveal(parents_placed);
    reveal(walk_nested);
    assert forall|a: int, b: int, c: int| #![trigger lists(m, order[a], order[b]), order[c]]
        0 <= a < c < b < order.len() && lists(m, order[a], order[b])
        implies exists|a2: int| a <= a2 < c && lists(m, order[a2], order[c]) by {
        let k = choose|k: int| 0 <= k < m.entities@[order[a] as int].children@.len()
            && m.entities@[order[a] as int].children@[k] == order[b];
        assert(claim[order[b]] == (order[a] as int, k));
        assert(marked[order[b] as int]);
        assert(ppos[order[b]] != -1);
        assert(order[ppos[order[b]]] == order[a]);
        assert(ppos[order[b]] == a);
        assert(marked[order[c] as int]);
        let a2 = ppos[order[c]];
        assert(a2 >= a && a2 < c);
        assert(order[a2] == claim[order[c]].0 as usize);
        assert(is_occurrence(m, claim[order[c]].0, claim[order[c]].1));
        assert(claim[order[c]].0 != -1);
        assert(claim[order[c]].0 == order[a2] as int);
        assert(children_of(m, claim[order[c]].0)[claim[order[c]].1] == order[c]);
        assert(m.entities@[order[a2] as int].children@[claim[order[c]].1] == order[c]);
        assert(lists(m, order[a2], order[c]));
    }
}

impl Model {
    /// Walks the entity tree from the root with an explicit stack: each
    /// entity before its children, siblings in list order. An entity met a
    /// second time, or a child index that names no entity, stops the walk
    /// with an error instead of looping.
    pub fn visit_order(&self) -> (r: Result<Vec<usize>, TraversalError>)
        ensures
            reachable_tree_shaped(self) ==> r.is_ok(),
            tree_shaped(self) ==> r.is_ok(),
            match r {
                Ok(order) => visits_tree(self, order@) && siblings_in_order(self, order@) && preorder_nested(self, order@),
                Err(TraversalError::InvalidEntity(c)) => !reachable_tree_shaped(self) && !child_indices_valid(self)
                    && c >= self.entities@.len(),
                Err(TraversalError::Revisit(c)) => !reachable_tree_shaped(self) && !occurrences_unique(self),
                Err(_) => false,
            },
    {
        let n = self.entities.len();
        let mut marked: Vec<bool> = Vec::new();
        while marked.len() < n
            invariant
                marked@.len() <= n,
                forall|e: int| 0 <= e < marked@.len() ==> !marked@[e],
            decreases n - marked@.len(),
        {
            marked.push(false);
        }
        let mut order: Vec<usize> = Vec::new();
        let mut stack: Vec<usize> = Vec::new();
        let mut parent: Option<usize> = None;
        let ghost mut claim: Map<usize, (int, int)> = Map::empty();
        let ghost mut ppos: Map<usize, int> = Map::empty();
        proof {
            reveal(parents_placed);
            reveal(walk_nested);
        }
        loop
            invariant
                n == self.entities@.len(),
                marked@.len() == n,
                forall|e: int| 0 <= e < n ==> (#[trigger] marked@[e] <==> (stack@.contains(e as usize) || order@.contains(e as usize))),
                forall|i: int| 0 <= i < stack@.len() ==> (#[trigger] stack@[i]) < n,
                forall|i: int| 0 <= i < order@.len() ==> (#[trigger] order@[i]) < n,
                stack@.no_duplicates(),
                order@.no_duplicates(),
                forall|i: int, j: int| 0 <= i < stack@.len() && 0 <= j < order@.len() ==> stack@[i] != order@[j],
                // every marked entity was claimed through one listing of it
                forall|e: usize| #[trigger] marked@[e as int] && e < n ==> claim.contains_key(e)
                    && is_occurrence(self, claim[e].0, claim[e].1)
                    && children_of(self, claim[e].0)[claim[e].1] == e
                    && (claim[e].0 == -1 || order@.contains(claim[e].0 as usize)),
                // the current parent's children are not processed yet
                match parent {
                    None => order@.len() == 0 && stack@.len() == 0,
                    Some(x) => order@.len() > 0 && order@.last() == x,
                },
                forall|e: usize| #[trigger] marked@[e as int] && e < n && parent.is_some() ==> claim[e].0 != parent.unwrap() as int,
                // the children of every processed parent are marked
                parent.is_some() ==> forall|k: int| 0 <= k < self.root_entity.children@.len()
                    ==> (#[trigger] self.root_entity.children@[k]) < n && marked@[self.root_entity.children@[k] as int],
                forall|i: int, k: int| 0 <= i < order@.len() && Some(order@[i]) != parent
                    && 0 <= k < self.entities@[order@[i] as int].children@.len()
                    ==> (#[trigger] self.entities@[#[trigger] order@[i] as int].children@[k]) < n
                    && marked@[self.entities@[order@[i] as int].children@[k] as int],
                // every visited entity comes after whoever lists it
                forall|i: int| 0 <= i < order@.len() ==> self.root_entity.children@.contains(#[trigger] order@[i])
                    || exists|j: int| 0 <= j < i && self.entities@[order@[j] as int].children@.contains(order@[i]),
                // siblings leave the stack in list order
                forall|i: int, j: int| 0 <= i < j < stack@.len() && claim[#[trigger] stack@[i]].0 == claim[#[trigger] stack@[j]].0
                    ==> claim[stack@[i]].1 > claim[stack@[j]].1,
                forall|i2: int, e1: usize| 0 <= i2 < order@.len() && #[trigger] marked@[e1 as int] && e1 < n
                    && claim[e1].0 == claim[#[trigger] order@[i2]].0 && claim[e1].1 < claim[order@[i2]].1
                    ==> exists|i1: int| 0 <= i1 < i2 && order@[i1] == e1,
                // each listing of a processed parent claimed its entity
                parent.is_some() ==> forall|k: int| 0 <= k < self.root_entity.children@.len()
                    ==> claim[#[trigger] self.root_entity.children@[k]] == (-1int, k),
                forall|i: int, k: int| 0 <= i < order@.len() && Some(order@[i]) != parent
                    && 0 <= k < self.entities@[order@[i] as int].children@.len()
                    ==> claim[#[trigger] self.entities@[#[trigger] order@[i] as int].children@[k]] == (order@[i] as int, k),
                parents_placed(marked@, claim, ppos, order@),
                walk_nested(stack@, order@, ppos),
            decreases 2 * count_false(marked@) + stack@.len(),
        {
            let ghost p: int = match parent { None => -1, Some(x) => x as int };
            let ghost m0 = 2 * count_false(marked@) + stack@.len();
            let ghost old_parent = parent;
            let children: &Vec<usize> = match parent {
                None => &self.root_entity.children,
                Some(x) => &self.entities[x].children,
            };
            assert(children@ == children_of(self, p));
            assert forall|i2: int| 0 <= i2 < order@.len() implies claim[#[trigger] order@[i2]].0 != p by {
                assert(order@.contains(order@[i2]));
                assert(marked@[order@[i2] as int]);
            }
            let mut k: usize = children.len();
            while k > 0
                invariant
                    children@ == children_of(self, p),
                    p == -1 || 0 <= p < n,
                    k <= children@.len(),
                    n == self.entities@.len(),
                    marked@.len() == n,
                    forall|e: int| 0 <= e < n ==> (#[trigger] marked@[e] <==> (stack@.contains(e as usize) || order@.contains(e as usize))),
                    forall|i: int| 0 <= i < stack@.len() ==> (#[trigger] stack@[i]) < n,
                    forall|i: int| 0 <= i < order@.len() ==> (#[trigger] order@[i]) < n,
                    stack@.no_duplicates(),
                    order@.no_duplicates(),
                    forall|i: int, j: int| 0 <= i < stack@.len() && 0 <= j < order@.len() ==> stack@[i] != order@[j],
                    forall|e: usize| #[trigger] marked@[e as int] && e < n ==> claim.contains_key(e)
                        && is_occurrence(self, claim[e].0, claim[e].1)
                        && children_of(self, claim[e].0)[claim[e].1] == e
                        && (claim[e].0 == -1 || claim[e].0 == p || order@.contains(claim[e].0 as usize)),
                    forall|e: usize| #[trigger] marked@[e as int] && e < n && claim[e].0 == p ==> claim[e].1 >= k,
                    forall|j: int| k <= j < children@.len() ==> (#[trigger] children@[j]) < n && marked@[children@[j] as int],
                    2 * count_false(marked@) + stack@.len() <= m0,
                    parent == old_parent,
                    p == -1 <==> parent.is_none(),
                    parent.is_some() ==> p == parent.unwrap() as int,
                    match parent {
                        None => order@.len() == 0,
                        Some(x) => order@.len() > 0 && order@.last() == x,
                    },
                    parent.is_some() ==> forall|k2: int| 0 <= k2 < self.root_entity.children@.len()
                        ==> (#[trigger] self.root_entity.children@[k2]) < n && marked@[self.root_entity.children@[k2] as int],
                    forall|i: int, k2: int| 0 <= i < order@.len() && Some(order@[i]) != parent
                        && 0 <= k2 < self.entities@[order@[i] as int].children@.len()
                        ==> (#[trigger] self.entities@[#[trigger] order@[i] as int].children@[k2]) < n
                        && marked@[self.entities@[order@[i] as int].children@[k2] as int],
                    forall|i: int| 0 <= i < order@.len() ==> self.root_entity.children@.contains(#[trigger] order@[i])
                        || exists|j: int| 0 <= j < i && self.entities@[order@[j] as int].children@.contains(order@[i]),
                    forall|i: int, j: int| 0 <= i < j < stack@.len() && claim[#[trigger] stack@[i]].0 == claim[#[trigger] stack@[j]].0
                        ==> claim[stack@[i]].1 > claim[stack@[j]].1,
                    forall|i2: int, e1: usize| 0 <= i2 < order@.len() && #[trigger] marked@[e1 as int] && e1 < n
                        && claim[e1].0 == claim[#[trigger] order@[i2]].0 && claim[e1].1 < claim[order@[i2]].1
                        ==> exists|i1: int| 0 <= i1 < i2 && order@[i1] == e1,
                    parent.is_some() ==> forall|k2: int| 0 <= k2 < self.root_entity.children@.len()
                        ==> claim[#[trigger] self.root_entity.children@[k2]] == (-1int, k2),
                    forall|i: int, k2: int| 0 <= i < order@.len() && Some(order@[i]) != parent
                        && 0 <= k2 < self.entities@[order@[i] as int].children@.len()
                        ==> claim[#[trigger] self.entities@[#[trigger] order@[i] as int].children@[k2]] == (order@[i] as int, k2),
                    forall|i2: int| 0 <= i2 < order@.len() ==> claim[#[trigger] order@[i2]].0 != p,
                    forall|j: int| k <= j < children@.len() ==> claim[#[trigger] children@[j]] == (p, j),
                    parents_placed(marked@, claim, ppos, order@),
                    walk_nested(stack@, order@, ppos),
                decreases k,
            {
                k = k - 1;
                let c = children[k];
                if c >= n {
                    proof {
                        assert(is_occurrence(self, p, k as int));
                        assert(children_of(self, p)[k as int] == c);
                        lemma_order_reachable(self, order@);
                        if p != -1 {
                            assert(order@[order@.len() - 1] == p as usize);
                        }
                        assert(lister_reachable(self, p));
                    }
                    return Err(TraversalError::InvalidEntity(c));
                }
                if marked[c] {
                    proof {
                        assert(marked@[c as int]);
                        let (p2, k2) = claim[c];
                        assert(is_occurrence(self, p, k as int));
                        assert(children_of(self, p)[k as int] == children_of(self, p2)[k2]);
                        lemma_order_reachable(self, order@);
                        if p != -1 {
                            assert(order@[order@.len() - 1] == p as usize);
                        }
                        assert(lister_reachable(self, p));
                        if p2 != -1 && p2 != p {
                            let j = choose|j: int| 0 <= j < order@.len() && order@[j] == p2 as usize;
                        }
                        assert(lister_reachable(self, p2));
                        assert(p2 != p || k2 != k as int);
                    }
                    return Err(TraversalError::Revisit(c));
                }
                proof {
                    lemma_count_false_update(marked@, c as int);
                }
                let ghost old_stack = stack@;
                let ghost old_marked = marked@;
                let ghost old_claim = claim;
                let ghost old_ppos = ppos;
                let ghost q: int = if p == -1 { -1 } else { order@.len() - 1 };
                proof {
                    assert(p != -1 ==> order@.last() == p as usize);
                    lemma_walk_push(marked@, claim, ppos, stack@, order@, c, p, k as int, q);
                }
                marked[c] = true;
                stack.push(c);
                proof {
                    claim = claim.insert(c, (p, k as int));
                    ppos = ppos.insert(c, q);
                    assert(stack@ == old_stack.push(c));
                    assert(marked@ == old_marked.update(c as int, true));
                    assert(!old_stack.contains(c) && !order@.contains(c));
                    assert forall|e: int| 0 <= e < n implies (#[trigger] marked@[e] <==> (stack@.contains(e as usize) || order@.contains(e as usize))) by {
                        if e == c as int {
                            assert(stack@[stack@.len() - 1] == c);
                        } else {
                            assert(marked@[e] == old_marked[e]);
                            if old_stack.contains(e as usize) {
                                let i = choose|i: int| 0 <= i < old_stack.len() && old_stack[i] == e as usize;
                                assert(stack@[i] == e as usize);
                            }
                            if stack@.contains(e as usize) {
                                let i = choose|i: int| 0 <= i < stack@.len() && stack@[i] == e as usize;
                                assert(i < old_stack.len());
                                assert(old_stack[i] == e as usize);
                            }
                        }
                    }
                    assert forall|i: int| 0 <= i < stack@.len() implies (#[trigger] stack@[i]) < n by {
                        if i < old_stack.len() {
                            assert(stack@[i] == old_stack[i]);
                        }
                    }
                    assert(stack@.no_duplicates()) by {
                        assert forall|i: int, j: int| 0 <= i < stack@.len() && 0 <= j < stack@.len() && i != j implies stack@[i] != stack@[j] by {
                            if i < old_stack.len() && j < old_stack.len() {
                                assert(stack@[i] == old_stack[i] && stack@[j] == old_stack[j]);
                            } else if i < old_stack.len() {
                                assert(stack@[i] == old_stack[i]);
                                assert(old_stack.contains(stack@[i]));
                            } else if j < old_stack.len() {
                                assert(stack@[j] == old_stack[j]);
                                assert(old_stack.contains(stack@[j]));
                            }
                        }
                    }
                    assert forall|i: int, j: int| 0 <= i < stack@.len() && 0 <= j < order@.len() implies stack@[i] != order@[j] by {
                        if i < old_stack.len() {
                            assert(stack@[i] == old_stack[i]);
                        } else {
                            assert(order@.contains(order@[j]));
                        }
                    }
                    assert forall|e: usize| #[trigger] marked@[e as int] && e < n implies claim.contains_key(e)
                        && is_occurrence(self, claim[e].0, claim[e].1)
                        && children_of(self, claim[e].0)[claim[e].1] == e
                        && (claim[e].0 == -1 || claim[e].0 == p || order@.contains(claim[e].0 as usize))
                        && (claim[e].0 == p ==> claim[e].1 >= k) by {
                        if e != c {
                            assert(old_marked[e as int]);
                            assert(claim[e] == old_claim[e]);
                        }
                    }
                    assert forall|j: int| k <= j < children@.len() implies (#[trigger] children@[j]) < n && marked@[children@[j] as int] by {
                        if j > k {
                            assert(old_marked[children@[j] as int]);
                        }
                    }
                    assert forall|i: int, j: int| 0 <= i < j < stack@.len() && claim[#[trigger] stack@[i]].0 == claim[#[trigger] stack@[j]].0
                        implies claim[stack@[i]].1 > claim[stack@[j]].1 by {
                        assert(stack@[i] == old_stack[i]);
                        assert(old_marked[old_stack[i] as int]);
                        assert(old_stack[i] != c);
                        if j < old_stack.len() {
                            assert(stack@[j] == old_stack[j]);
                            assert(old_marked[old_stack[j] as int]);
                            assert(old_stack[j] != c);
                        } else {
                            assert(stack@[j] == c);
                        }
                    }
                    assert forall|i2: int, e1: usize| 0 <= i2 < order@.len() && #[trigger] marked@[e1 as int] && e1 < n
                        && claim[e1].0 == claim[#[trigger] order@[i2]].0 && claim[e1].1 < claim[order@[i2]].1
                        implies exists|i1: int| 0 <= i1 < i2 && order@[i1] == e1 by {
                        assert(order@.contains(order@[i2]));
                        assert(old_marked[order@[i2] as int]);
                        assert(order@[i2] != c);
                        assert(claim[order@[i2]] == old_claim[order@[i2]]);
                        if e1 != c {
                            assert(old_marked[e1 as int]);
                        }
                    }
                    assert forall|k2: int| parent.is_some() && 0 <= k2 < self.root_entity.children@.len()
                        implies claim[#[trigger] self.root_entity.children@[k2]] == (-1int, k2) by {
                        assert(old_marked[self.root_entity.children@[k2] as int]);
                    }
                    assert forall|i: int, k2: int| 0 <= i < order@.len() && Some(order@[i]) != parent
                        && 0 <= k2 < self.entities@[order@[i] as int].children@.len()
                        implies claim[#[trigger] self.entities@[#[trigger] order@[i] as int].children@[k2]] == (order@[i] as int, k2) by {
                        assert(old_marked[self.entities@[order@[i] as int].children@[k2] as int]);
                    }
                    assert forall|i2: int| 0 <= i2 < order@.len() implies claim[#[trigger] order@[i2]].0 != p by {
                        assert(order@.contains(order@[i2]));
                        assert(old_marked[order@[i2] as int]);
                    }
                    assert forall|j: int| k <= j < children@.len() implies claim[#[trigger] children@[j]] == (p, j) by {
                        if j > k {
                            assert(old_marked[children@[j] as int]);
                        }
                    }
                }
            }
            let ghost old_stack = stack@;
            let ghost old_order = order@;
            match stack.pop() {
                None => {
                    proof {
                        assert(stack@.len() == 0);
                        assert forall|k2: int| 0 <= k2 < self.root_entity.children@.len()
                            implies order@.contains(#[trigger] self.root_entity.children@[k2]) by {
                            let c = self.root_entity.children@[k2];
                            if p == -1 {
                                assert(children@[k2] == c);
                            }
                            assert(marked@[c as int]);
                            assert(!stack@.contains(c));
                        }
                        assert forall|i: int, k2: int| 0 <= i < order@.len() && 0 <= k2 < self.entities@[order@[i] as int].children@.len()
                            implies order@.contains(#[trigger] self.entities@[#[trigger] order@[i] as int].children@[k2]) by {
                            let c = self.entities@[order@[i] as int].children@[k2];
                            if Some(order@[i]) == parent {
                                assert(children@[k2] == c);
                            }
                            assert(marked@[c as int]);
                            assert(!stack@.contains(c));
                        }
                        assert forall|k2: int| 0 <= k2 < self.root_entity.children@.len()
                            implies claim[#[trigger] self.root_entity.children@[k2]] == (-1int, k2) by {
                            if p == -1 {
                                assert(children@[k2] == self.root_entity.children@[k2]);
                            }
                        }
                        assert forall|i: int, k2: int| 0 <= i < order@.len() && 0 <= k2 < self.entities@[order@[i] as int].children@.len()
                            implies claim[#[trigger] self.entities@[#[trigger] order@[i] as int].children@[k2]] == (order@[i] as int, k2) by {
                            if Some(order@[i]) == parent {
                                assert(children@[k2] == self.entities@[order@[i] as int].children@[k2]);
                            }
                        }
                        lemma_siblings_in_order(self, order@, marked@, claim);
                        assert(stack@ =~= Seq::<usize>::empty());
                        assert forall|i: int| 0 <= i < order@.len() implies (#[trigger] order@[i] as int) < marked@.len() && marked@[order@[i] as int] by {
                            assert(order@.contains(order@[i]));
                        }
                        lemma_preorder(self, marked@, claim, ppos, order@);
                    }
                    return Ok(order);
                },
                Some(x) => {
                    order.push(x);
                    parent = Some(x);
                    proof {
                        assert(old_stack[old_stack.len() - 1] == x);
                        assert(old_stack.contains(x));
                        assert(marked@[x as int]);
                        assert forall|i: int| 0 <= i < old_stack.len() implies (#[trigger] old_stack[i] as int) < marked@.len() && marked@[old_stack[i] as int] by {
                            assert(old_stack.contains(old_stack[i]));
                        }
                        assert forall|i: int| 0 <= i < old_order.len() implies (#[trigger] old_order[i] as int) < marked@.len() && marked@[old_order[i] as int] by {
                            assert(old_order.contains(old_order[i]));
                        }
                        lemma_walk_pop(marked@, claim, ppos, old_stack, old_order);
                        assert(stack@ == old_stack.drop_last());
                        assert(x == old_stack.last());
                        assert(order@ == old_order.push(x));
                        assert(!old_order.contains(x)) by {
                            assert(old_stack[old_stack.len() - 1] == x);
                        }
                        assert(x as int != p) by {
                            if p != -1 {
                                assert(old_order[old_order.len() - 1] == p as usize);
                                assert(old_stack[old_stack.len() - 1] == x);
                            }
                        }
                        assert forall|e: usize| old_stack.contains(e) || old_order.contains(e) <==> stack@.contains(e) || order@.contains(e) by {
                            if old_stack.contains(e) {
                                let i = choose|i: int| 0 <= i < old_stack.len() && old_stack[i] == e;
                                if i < old_stack.len() - 1 {
                                    assert(stack@[i] == e);
                                } else {
                                    assert(order@[order@.len() - 1] == e);
                                }
                            }
                            if old_order.contains(e) {
                                let i = choose|i: int| 0 <= i < old_order.len() && old_order[i] == e;
                                assert(order@[i] == e);
                            }
                            if stack@.contains(e) {
                                let i = choose|i: int| 0 <= i < stack@.len() && stack@[i] == e;
                                assert(old_stack[i] == e);
                            }
                            if order@.contains(e) {
                                let i = choose|i: int| 0 <= i < order@.len() && order@[i] == e;
                                if i < old_order.len() {
                                    assert(old_order[i] == e);
                                } else {
                                    assert(old_stack[old_stack.len() - 1] == e);
                                }
                            }
                        }
                        assert forall|e: int| 0 <= e < n implies (#[trigger] marked@[e] <==> (stack@.contains(e as usize) || order@.contains(e as usize))) by {
                            assert(old_stack.contains(e as usize) || old_order.contains(e as usize) <==> stack@.contains(e as usize) || order@.contains(e as usize));
                        }
                        assert forall|i: int| 0 <= i < stack@.len() implies (#[trigger] stack@[i]) < n by {
                            assert(stack@[i] == old_stack[i]);
                        }
                        assert forall|i: int| 0 <= i < order@.len() implies (#[trigger] order@[i]) < n by {
                            if i < old_order.len() {
                                assert(order@[i] == old_order[i]);
                            } else {
                                assert(old_stack[old_stack.len() - 1] == x);
                            }
                        }
                        assert(stack@.no_duplicates()) by {
                            assert forall|i: int, j: int| 0 <= i < stack@.len() && 0 <= j < stack@.len() && i != j implies stack@[i] != stack@[j] by {
                                assert(stack@[i] == old_stack[i] && stack@[j] == old_stack[j]);
                            }
                        }
                        assert(order@.no_duplicates()) by {
                            assert forall|i: int, j: int| 0 <= i < order@.len() && 0 <= j < order@.len() && i != j implies order@[i] != order@[j] by {
                                if i < old_order.len() && j < old_order.len() {
                                    assert(order@[i] == old_order[i] && order@[j] == old_order[j]);
                                } else if i < old_order.len() {
                                    assert(order@[i] == old_order[i]);
                                    assert(old_order.contains(order@[i]));
                                } else if j < old_order.len() {
                                    assert(order@[j] == old_order[j]);
                                    assert(old_order.contains(order@[j]));
                                }
                            }
                        }
                        assert forall|i: int, j: int| 0 <= i < stack@.len() && 0 <= j < order@.len() implies stack@[i] != order@[j] by {
                            assert(stack@[i] == old_stack[i]);
                            if j < old_order.len() {
                                assert(order@[j] == old_order[j]);
                            } else {
                                assert(old_stack[old_stack.len() - 1] == x);
                            }
                        }
                        assert forall|e: usize| #[trigger] marked@[e as int] && e < n implies claim.contains_key(e)
                            && is_occurrence(self, claim[e].0, claim[e].1)
                            && children_of(self, claim[e].0)[claim[e].1] == e
                            && (claim[e].0 == -1 || order@.contains(claim[e].0 as usize))
                            && claim[e].0 != x as int by {
                            if claim[e].0 == p && p != -1 {
                                assert(old_order[old_order.len() - 1] == p as usize);
                                assert(order@[old_order.len() - 1] == p as usize);
                            }
                            if claim[e].0 != -1 && claim[e].0 != p {
                                assert(old_order.contains(claim[e].0 as usize));
                                let i = choose|i: int| 0 <= i < old_order.len() && old_order[i] == claim[e].0 as usize;
                                assert(order@[i] == claim[e].0 as usize);
                            }
                        }
                        assert forall|k2: int| 0 <= k2 < self.root_entity.children@.len()
                            implies (#[trigger] self.root_entity.children@[k2]) < n && marked@[self.root_entity.children@[k2] as int] by {
                            if p == -1 {
                                assert(children@[k2] == self.root_entity.children@[k2]);
                            }
                        }
                        assert forall|i: int, k2: int| 0 <= i < order@.len() && Some(order@[i]) != parent
                            && 0 <= k2 < self.entities@[order@[i] as int].children@.len()
                            implies (#[trigger] self.entities@[#[trigger] order@[i] as int].children@[k2]) < n
                            && marked@[self.entities@[order@[i] as int].children@[k2] as int] by {
                            assert(i < old_order.len());
                            assert(order@[i] == old_order[i]);
                            if Some(old_order[i]) == old_parent {
                                assert(children@[k2] == self.entities@[order@[i] as int].children@[k2]);
                            }
                        }
                        assert forall|i: int| 0 <= i < order@.len() implies self.root_entity.children@.contains(#[trigger] order@[i])
                            || exists|j: int| 0 <= j < i && self.entities@[order@[j] as int].children@.contains(order@[i]) by {
                            if i < old_order.len() {
                                assert(order@[i] == old_order[i]);
                                if !self.root_entity.children@.contains(old_order[i]) {
                                    let j = choose|j: int| 0 <= j < i && self.entities@[old_order[j] as int].children@.contains(old_order[i]);
                                    assert(order@[j] == old_order[j]);
                                }
                            } else {
                                assert(marked@[x as int]);
                                let (q, kq) = claim[x];
                                assert(children_of(self, q)[kq] == x);
                                if q == -1 {
                                    assert(self.root_entity.children@[kq] == x);
                                } else {
                                    let j = choose|j: int| 0 <= j < order@.len() && order@[j] == q as usize;
                                    assert(j != i);
                                    assert(self.entities@[order@[j] as int].children@[kq] == x);
                                }
                            }
                        }
                    }
                },
            }
        }
    }
}

/// `path` leads from a child of the root down the tree, each entity a
/// child of the one before.
pub open spec fn is_path(m: &Model, path: Seq<usize>) -> bool {
    &&& path.len() > 0
    &&& m.root_entity.children@.contains(path[0])
    &&& forall|i: int| 0 <= i < path.len() - 1 ==> (#[trigger] path[i]) < m.entities@.len()
        && m.entities@[path[i] as int].children@.contains(path[i + 1])
}

/// Entity `e` can be reached from the root.
pub open spec fn reachable(m: &Model, e: usize) -> bool {
    exists|path: Seq<usize>| is_path(m, path) && path.last() == e
}

proof fn path_to(m: &Model, order: Seq<usize>, i: int) -> (path: Seq<usize>)
    requires
        forall|x: int| 0 <= x < order.len() ==> (#[trigger] order[x]) < m.entities@.len(),
        forall|x: int| 0 <= x < order.len() ==> m.root_entity.children@.contains(#[trigger] order[x])
            || exists|j: int| 0 <= j < x && m.entities@[order[j] as int].children@.contains(order[x]),
        0 <= i < order.len(),
    ensures
        is_path(m, path),
        path.last() == order[i],
    decreases i,
{
    if m.root_entity.children@.contains(order[i]) {
        seq![order[i]]
    } else {
        let j = choose|j: int| 0 <= j < i && m.entities@[order[j] as int].children@.contains(order[i]);
        let prefix = path_to(m, order, j);
        let path = prefix.push(order[i]);
        assert forall|k: int| 0 <= k < path.len() - 1 implies (#[trigger] path[k]) < m.entities@.len()
            && m.entities@[path[k] as int].children@.contains(path[k + 1]) by {
            if k < prefix.len() - 1 {
                assert(path[k] == prefix[k] && path[k + 1] == prefix[k + 1]);
            } else {
                assert(path[k] == order[j]);
            }
        }
        path
    }
}

proof fn lemma_path_visited(m: &Model, order: Seq<usize>, path: Seq<usize>, n: int)
    requires
        visits_tree(m, order),
        is_path(m, path),
        0 <= n < path.len(),
    ensures
        order.contains(path[n]),
    decreases n,
{
    if n == 0 {
        let k = choose|k: int| 0 <= k < m.root_entity.children@.len() && m.root_entity.children@[k] == path[0];
        assert(order.contains(m.root_entity.children@[k]));
    } else {
        lemma_path_visited(m, order, path, n - 1);
        let i = choose|i: int| 0 <= i < order.len() && order[i] == path[n - 1];
        assert(path[n - 1] < m.entities@.len() && m.entities@[path[n - 1] as int].children@.contains(path[n]));
        let k = choose|k: int| 0 <= k < m.entities@[order[i] as int].children@.len()
            && m.entities@[order[i] as int].children@[k] == path[n];
        assert(order.contains(m.entities@[order[i] as int].children@[k]));
    }
}

/// Every entity of an order in which each entity follows whoever lists it is
/// reachable.
proof fn lemma_order_reachable(m: &Model, order: Seq<usize>)
    requires
        forall|x: int| 0 <= x < order.len() ==> (#[trigger] order[x]) < m.entities@.len(),
        forall|x: int| 0 <= x < order.len() ==> m.root_entity.children@.contains(#[trigger] order[x])
            || exists|j: int| 0 <= j < x && m.entities@[order[j] as int].children@.contains(order[x]),
    ensures
        forall|x: int| 0 <= x < order.len() ==> reachable(m, #[trigger] order[x]),
{
    assert forall|x: int| 0 <= x < order.len() implies reachable(m, #[trigger] order[x]) by {
        let path = path_to(m, order, x);
    }
}

/// The root (`p == -1`) or a reachable entity.
pub open spec fn lister_reachable(m: &Model, p: int) -> bool {
    p == -1 || (0 <= p < m.entities@.len() && reachable(m, p as usize))
}

/// The part of the entity graph reachable from the root is a tree: the root
/// and the reachable entities list only valid indices, and no entity twice.
pub open spec fn reachable_tree_shaped(m: &Model) -> bool {
    &&& forall|p: int, k: int| is_occurrence(m, p, k) && lister_reachable(m, p)
        ==> (#[trigger] children_of(m, p)[k]) < m.entities@.len()
    &&& forall|p1: int, k1: int, p2: int, k2: int|
        is_occurrence(m, p1, k1) && is_occurrence(m, p2, k2) && lister_reachable(m, p1) && lister_reachable(m, p2)
        && #[trigger] children_of(m, p1)[k1] == #[trigger] children_of(m, p2)[k2]
        ==> p1 == p2 && k1 == k2
}

/// A traversal that succeeds visits every entity reachable from the root
/// exactly once, and nothing else.
pub proof fn lemma_traversal_complete(m: &Model, order: Seq<usize>)
    requires
        visits_tree(m, order),
    ensures
        order.no_duplicates(),
        forall|e: usize| order.contains(e) <==> reachable(m, e),
{
    assert forall|e: usize| order.contains(e) <==> reachable(m, e) by {
        if order.contains(e) {
            let i = choose|i: int| 0 <= i < order.len() && order[i] == e;
            let path = path_to(m, order, i);
        }
        if reachable(m, e) {
            let path = choose|path: Seq<usize>| is_path(m, path) && path.last() == e;
            lemma_path_visited(m, order, path, path.len() - 1);
        }
    }
}

/// One indexed draw: a primitive of the mesh of a visited entity.
#[derive(Clone, Copy, Debug, PartialEq, Eq, Structural)]
pub struct DrawCall {
    pub entity: usize,
    pub mesh: usize,
    pub primitive: usize,
    pub material: usize,
    pub index_count: u32,
    pub animated: bool,
}

/// The draws of one entity: one per primitive of its mesh, in order.
pub open spec fn entity_draws(m: &Model, e: usize) -> Seq<DrawCall> {
    match m.entities@[e as int].mesh_index {
        None => Seq::empty(),
        Some(mi) => Seq::new(m.meshes@[mi as int].primitives@.len(), |k: int| DrawCall {
            entity: e,
            mesh: mi,
            primitive: k as usize,
            material: m.meshes@[mi as int].primitives@[k].material_index,
            index_count: m.meshes@[mi as int].primitives@[k].index_count,
            animated: m.meshes@[mi as int].animated,
        }),
    }
}

/// The draws of the entities of `order`, in that order.
pub open spec fn draws_for(m: &Model, order: Seq<usize>) -> Seq<DrawCall>
    decreases order.len(),
{
    if order.len() == 0 {
        Seq::empty()
    } else {
        draws_for(m, order.drop_last()) + entity_draws(m, order.last())
    }
}

/// Entity `e`'s mesh index, and its primitives' material indices, are valid.
pub open spec fn entity_refs_valid(m: &Model, e: usize) -> bool {
    match m.entities@[e as int].mesh_index {
        None => true,
        Some(mi) => mi < m.meshes@.len() && forall|k: int| 0 <= k < m.meshes@[mi as int].primitives@.len()
            ==> (#[trigger] m.meshes@[mi as int].primitives@[k]).material_index < m.material_count,
    }
}

impl Model {
    /// The draws for the entities of `order`: for each entity with a mesh,
    /// one per primitive, in order. Fails on a mesh or material index that
    /// names nothing.
    pub fn draw_list(&self, order: &Vec<usize>) -> (r: Result<Vec<DrawCall>, TraversalError>)
        requires
            forall|i: int| 0 <= i < order@.len() ==> (#[trigger] order@[i]) < self.entities@.len(),
        ensures
            r.is_ok() == forall|i: int| 0 <= i < order@.len() ==> entity_refs_valid(self, #[trigger] order@[i]),
            r.is_ok() ==> r.unwrap()@ == draws_for(self, order@),
    {
        let mut draws: Vec<DrawCall> = Vec::new();
        let mut i: usize = 0;
        while i < order.len()
            invariant
                i <= order@.len(),
                forall|j: int| 0 <= j < order@.len() ==> (#[trigger] order@[j]) < self.entities@.len(),
                forall|j: int| 0 <= j < i ==> entity_refs_valid(self, #[trigger] order@[j]),
                draws@ == draws_for(self, order@.take(i as int)),
            decreases order@.len() - i,
        {
            let e = order[i];
            let ghost before = draws@;
            proof {
                assert(order@.take(i as int + 1).drop_last() =~= order@.take(i as int));
                assert(order@.take(i as int + 1).last() == e);
            }
            match self.entities[e].mesh_index {
                None => {
                    proof {
                        assert(draws@ =~= draws_for(self, order@.take(i as int + 1)));
                    }
                },
                Some(mi) => {
                    if mi >= self.meshes.len() {
                        return Err(TraversalError::InvalidMesh(mi));
                    }
                    let mesh = &self.meshes[mi];
                    let mut k: usize = 0;
                    while k < mesh.primitives.len()
                        invariant
                            mi < self.meshes@.len(),
                            *mesh == self.meshes@[mi as int],
                            self.entities@[e as int].mesh_index == Some(mi),
                            i < order@.len(),
                            e == order@[i as int],
                            k <= mesh.primitives@.len(),
                            forall|q: int| 0 <= q < k ==> (#[trigger] mesh.primitives@[q]).material_index < self.material_count,
                            draws@ =~= before + entity_draws(self, e).take(k as int),
                        decreases mesh.primitives@.len() - k,
                    {
                        let prim = mesh.primitives[k];
                        if prim.material_index >= self.material_count {
                            proof {
                                assert(mesh.primitives@[k as int] == prim);
                                assert(!entity_refs_valid(self, order@[i as int]));
                            }
                            return Err(TraversalError::InvalidMaterial(prim.material_index));
                        }
                        draws.push(DrawCall {
                            entity: e,
                            mesh: mi,
                            primitive: k,
                            material: prim.material_index,
                            index_count: prim.index_count,
                            animated: mesh.animated,
                        });
                        proof {
                            assert(entity_draws(self, e).take(k as int + 1) =~= entity_draws(self, e).take(k as int).push(entity_draws(self, e)[k as int]));
                        }
                        k = k + 1;
                    }
                    proof {
                        assert(entity_draws(self, e).take(k as int) =~= entity_draws(self, e));
                    }
                },
            }
            i = i + 1;
        }
        proof {
            assert(order@.take(order@.len() as int) =~= order@);
        }
        Ok(draws)
    }

    /// Walks the entity tree and lists the draws of every visited entity.
    pub fn render(&self) -> (r: Result<Vec<DrawCall>, TraversalError>)
        ensures
            reachable_tree_shaped(self) && (forall|e: usize| e < self.entities@.len() && reachable(self, e)
                ==> entity_refs_valid(self, e)) ==> r.is_ok(),
            tree_shaped(self) && (forall|e: usize| e < self.entities@.len() ==> entity_refs_valid(self, e)) ==> r.is_ok(),
            r.is_ok() ==> exists|order: Seq<usize>| visits_tree(self, order) && siblings_in_order(self, order)
                && preorder_nested(self, order) && r.unwrap()@ == draws_for(self, order),
    {
        let order = match self.visit_order() {
            Ok(order) => {
                proof {
                    lemma_traversal_complete(self, order@);
                    assert forall|i: int| 0 <= i < order@.len() implies reachable(self, #[trigger] order@[i]) by {
                        assert(order@.contains(order@[i]));
                    }
                }
                order
            },
            Err(e) => {
                return Err(e);
            },
        };
        self.draw_list(&order)
    }
}

} // verus!
