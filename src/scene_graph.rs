use vstd::prelude::*;

verus! {

/// What a light source emits light as.
#[derive(Clone, Copy, PartialEq, Eq, Structural, Debug)]
pub enum LightSourceType {
    Point,
    Spot,
    Directional,
}

/// The kind of a scene node; it decides whether and how the node is drawn.
#[derive(Clone, Copy, PartialEq, Eq, Structural, Debug)]
pub enum SceneNodeType {
    Geometry,
    Skybox,
    Geometry2d,
    Planet,
    Ocean,
    LightSource,
    Empty,
}

impl SceneNodeType {
    /// Nodes of these kinds carry geometry and issue a draw call.
    pub open spec fn spec_is_drawable(self) -> bool {
        !(self is LightSource || self is Empty)
    }

    pub fn is_drawable(&self) -> (r: bool)
        ensures
            r == self.spec_is_drawable(),
    {
        match self {
            SceneNodeType::LightSource | SceneNodeType::Empty => false,
            _ => true,
        }
    }

    /// The value handed to the shading stage so that it can branch per kind.
    pub open spec fn spec_code(self) -> u32 {
        match self {
            SceneNodeType::Geometry => 0,
            SceneNodeType::Skybox => 1,
            SceneNodeType::Geometry2d => 2,
            SceneNodeType::Planet => 3,
            SceneNodeType::Ocean => 4,
            SceneNodeType::LightSource => 5,
            SceneNodeType::Empty => 6,
        }
    }

    pub fn code(&self) -> (r: u32)
        ensures
            r == self.spec_code(),
    {
        match self {
            SceneNodeType::Geometry => 0,
            SceneNodeType::Skybox => 1,
            SceneNodeType::Geometry2d => 2,
            SceneNodeType::Planet => 3,
            SceneNodeType::Ocean => 4,
            SceneNodeType::LightSource => 5,
            SceneNodeType::Empty => 6,
        }
    }
}

/// A drawable GPU resource: the vertex array object, its buffers, and how
/// many indices a draw of it covers.
#[derive(Clone, Copy, PartialEq, Eq, Structural, Debug)]
pub struct VAOobj {
    pub vao: u32,
    pub vbo: u32,
    pub ibo: u32,
    pub nbo: u32,
    pub texbo: u32,
    pub n: i32,
}

impl VAOobj {
    pub open spec fn spec_empty() -> VAOobj {
        VAOobj { vao: 0, vbo: 0, ibo: 0, nbo: 0, texbo: 0, n: 0 }
    }

    /// The handle of nothing: every identifier zero.
    pub fn empty() -> (r: VAOobj)
        ensures
            r == VAOobj::spec_empty(),
    {
        VAOobj { vao: 0, vbo: 0, ibo: 0, nbo: 0, texbo: 0, n: 0 }
    }
}

/// One node of a scene. Children are referred to by their index in the
/// `SceneGraph` that holds the node.
pub struct SceneNode {
    pub node_type: SceneNodeType,
    pub name: String,
    pub vao: VAOobj,
    /// How many indices to draw; negative when the node has no draw handle.
    pub index_count: i32,
    pub texture_id: Option<u32>,
    pub children: Vec<usize>,
}

impl SceneNode {
    /// A node just made: of kind `t`, unnamed, untextured, childless.
    pub open spec fn is_fresh(self, t: SceneNodeType, vao: VAOobj, index_count: int) -> bool {
        &&& self.node_type == t
        &&& self.name@ == Seq::<char>::empty()
        &&& self.vao == vao
        &&& self.index_count == index_count
        &&& self.texture_id is None
        &&& self.children@ == Seq::<usize>::empty()
    }

    pub open spec fn has_handle(self) -> bool {
        self.index_count >= 0
    }

    /// An empty node, which draws nothing.
    pub fn new() -> (r: SceneNode)
        ensures
            r.is_fresh(SceneNodeType::Empty, VAOobj::spec_empty(), -1int),
    {
        SceneNode::with_type(SceneNodeType::Empty)
    }

    /// A node of the given kind without a draw handle.
    pub fn with_type(node_type: SceneNodeType) -> (r: SceneNode)
        ensures
            r.is_fresh(node_type, VAOobj::spec_empty(), -1int),
    {
        SceneNode {
            node_type,
            name: String::new(),
            vao: VAOobj::empty(),
            index_count: -1,
            texture_id: None,
            children: Vec::new(),
        }
    }

    /// A geometry node that draws `vao`, as many indices as it holds.
    pub fn from_vao(vao: VAOobj) -> (r: SceneNode)
        ensures
            r.is_fresh(SceneNodeType::Geometry, vao, vao.n as int),
    {
        SceneNode {
            node_type: SceneNodeType::Geometry,
            name: String::new(),
            vao,
            index_count: vao.n,
            texture_id: None,
            children: Vec::new(),
        }
    }

    pub fn add_child(&mut self, child: usize)
        ensures
            final(self).children@ == old(self).children@.push(child),
            final(self).node_type == old(self).node_type,
            final(self).name@ == old(self).name@,
            final(self).vao == old(self).vao,
            final(self).index_count == old(self).index_count,
            final(self).texture_id == old(self).texture_id,
    {
        self.children.push(child);
    }

    /// The index of the child in position `index`.
    pub fn get_child(&self, index: usize) -> (r: usize)
        requires
            index < self.children@.len(),
        ensures
            r == self.children@[index as int],
    {
        self.children[index]
    }

    pub fn get_n_children(&self) -> (r: usize)
        ensures
            r == self.children@.len(),
    {
        self.children.len()
    }

    /// Adds a cubesphere to `graph`: an empty node, returned, with one planet
    /// node per face handle as its children, in the order of `faces`.
    pub fn make_cubesphere(graph: &mut SceneGraph, faces: &Vec<VAOobj>) -> (r: usize)
        requires
            old(graph).wf(),
            old(graph).spec_len() + faces@.len() + 1 <= usize::MAX,
        ensures
            final(graph).wf(),
            r == old(graph).spec_len(),
            final(graph).spec_len() == old(graph).spec_len() + faces@.len() + 1,
            final(graph).spec_node(r as int).node_type == SceneNodeType::Empty,
            final(graph).spec_parent(r as int) is None,
            final(graph).children(r as int) == Seq::new(faces@.len(), |j: int| (r + 1 + j) as usize),
            forall|j: int|
                #![trigger faces@[j]]
                0 <= j < faces@.len() ==> final(graph).is_planet_face(r + 1 + j, r, faces@[j]),
            forall|i: int|
                0 <= i < old(graph).spec_len() ==> final(graph).spec_node(i) == old(graph).spec_node(i)
                    && final(graph).spec_parent(i) == old(graph).spec_parent(i),
    {
        let ghost g0 = *graph;
        let r = graph.add_node(SceneNode::with_type(SceneNodeType::Empty));
        let mut k: usize = 0;
        while k < faces.len()
            invariant
                graph.wf(),
                r == g0.spec_len(),
                g0.spec_len() + faces@.len() + 1 <= usize::MAX,
                k <= faces@.len(),
                graph.spec_len() == r + 1 + k,
                graph.spec_node(r as int).node_type == SceneNodeType::Empty,
                graph.spec_parent(r as int) is None,
                graph.children(r as int) == Seq::new(k as nat, |j: int| (r + 1 + j) as usize),
                forall|j: int|
                    #![trigger faces@[j]]
                    0 <= j < k ==> graph.is_planet_face(r + 1 + j, r, faces@[j]),
                forall|i: int|
                    0 <= i < g0.spec_len() ==> graph.spec_node(i) == g0.spec_node(i)
                        && graph.spec_parent(i) == g0.spec_parent(i),
            decreases faces@.len() - k,
        {
            let mut face = SceneNode::from_vao(faces[k]);
            face.node_type = SceneNodeType::Planet;
            let ghost g1 = *graph;
            let id = graph.add_node(face);
            proof {
                graph.lemma_top_is_own_root(r as int);
            }
            let ghost g2 = *graph;
            let res = graph.attach(r, id);
            proof {
                assert(res is Ok);
                assert(graph.children(r as int) =~= Seq::new((k + 1) as nat, |j: int| (r + 1 + j) as usize));
                assert forall|j: int|
                    #![trigger faces@[j]]
                    0 <= j < k + 1 implies graph.is_planet_face(r + 1 + j, r, faces@[j]) by {
                    let _ = faces@[j];
                    if j < k {
                        assert(g1.spec_node(r + 1 + j) == g2.spec_node(r + 1 + j));
                        assert(g1.spec_parent(r + 1 + j) == g2.spec_parent(r + 1 + j));
                        assert(graph.spec_node(r + 1 + j) == g2.spec_node(r + 1 + j));
                        assert(graph.spec_parent(r + 1 + j) == g2.spec_parent(r + 1 + j));
                    } else {
                        assert(id == r + 1 + j);
                        assert(graph.spec_node(r + 1 + j) == g2.spec_node(r + 1 + j));
                    }
                }
                assert forall|i: int|
                    0 <= i < g0.spec_len() implies graph.spec_node(i) == g0.spec_node(i)
                        && graph.spec_parent(i) == g0.spec_parent(i) by {
                    assert(g2.spec_node(i) == g1.spec_node(i));
                    assert(g2.spec_parent(i) == g1.spec_parent(i));
                    assert(graph.spec_node(i) == g2.spec_node(i));
                    assert(graph.spec_parent(i) == g2.spec_parent(i));
                }
            }
            k = k + 1;
        }
        r
    }
}

/// What can go wrong when the graph is changed or drawn.
#[derive(Clone, Copy, PartialEq, Eq, Structural, Debug)]
pub enum SceneError {
    /// An index that names no node of the graph.
    NoSuchNode,
    /// The node to attach already has a parent.
    AlreadyAttached,
    /// The node to attach is the root of the parent's own tree.
    WouldCycle,
    /// A node of a drawable kind has no draw handle.
    MissingHandle(usize),
}

/// One draw call of a frame, with everything the renderer binds for it.
#[derive(Clone, Copy, PartialEq, Eq, Structural, Debug)]
pub struct DrawCall {
    pub node: usize,
    pub vao: u32,
    pub index_count: i32,
    /// The kind code handed to the shading stage.
    pub node_type: u32,
    /// False for screen-space nodes, whose own transform is used without the camera.
    pub through_camera: bool,
    pub texture_id: Option<u32>,
    /// Whether a texture is bound; false when the node has none.
    pub has_texture: bool,
}

/// One step of the transform pass: the world transform of `node` is the
/// world transform computed at step `parent_slot` (or the transform handed
/// in, for the first step) times the node's local transform.
#[derive(Clone, Copy, PartialEq, Eq, Structural, Debug)]
pub struct UpdateStep {
    pub node: usize,
    pub parent_slot: Option<usize>,
}

/// All the nodes of a scene, each referred to by its index. Every node has at
/// most one parent and no node is its own descendant.
pub struct SceneGraph {
    nodes: Vec<SceneNode>,
    parents: Vec<Option<usize>>,
    roots: Vec<usize>,
    height: Ghost<Seq<nat>>,
}

impl SceneGraph {
    pub closed spec fn spec_len(self) -> nat {
        self.nodes@.len()
    }

    pub closed spec fn spec_node(self, i: int) -> SceneNode {
        self.nodes@[i]
    }

    pub closed spec fn spec_parent(self, i: int) -> Option<usize> {
        self.parents@[i]
    }

    /// The topmost ancestor of node `i`.
    pub closed spec fn spec_root(self, i: int) -> usize {
        self.roots@[i]
    }

    /// A measure that strictly falls from a node to each of its children.
    pub closed spec fn rank(self, i: int) -> nat {
        self.height@[i]
    }

    pub open spec fn children(self, i: int) -> Seq<usize> {
        self.spec_node(i).children@
    }

    pub closed spec fn wf(self) -> bool {
        let n = self.nodes@.len();
        &&& n <= usize::MAX
        &&& self.parents@.len() == n
        &&& self.roots@.len() == n
        &&& self.height@.len() == n
        &&& forall|i: int, k: int|
            #![trigger self.nodes@[i].children@[k]]
            0 <= i < n && 0 <= k < self.nodes@[i].children@.len() ==> {
                let c = self.nodes@[i].children@[k];
                &&& c < n
                &&& self.parents@[c as int] == Some(i as usize)
                &&& self.height@[c as int] < self.height@[i]
            }
        &&& forall|i: int|
            #![trigger self.parents@[i]]
            0 <= i < n ==> match self.parents@[i] {
                Some(p) => p < n && self.roots@[i] == self.roots@[p as int],
                None => self.roots@[i] == i,
            }
        &&& forall|i: int|
            #![trigger self.roots@[i]]
            0 <= i < n ==> self.roots@[i] < n && self.parents@[self.roots@[i] as int] is None
    }

    proof fn lemma_child(self, i: int, k: int)
        requires
            self.wf(),
            0 <= i < self.spec_len(),
            0 <= k < self.children(i).len(),
        ensures
            self.children(i)[k] < self.spec_len(),
            self.spec_parent(self.children(i)[k] as int) == Some(i as usize),
            self.rank(self.children(i)[k] as int) < self.rank(i),
    {
        let _ = self.nodes@[i].children@[k];
    }

    /// The nodes under `i`, `i` included, in depth-first pre-order.
    pub open spec fn visits(self, i: int) -> Seq<usize>
        decreases self.rank(i), 1int, 0int
        when self.wf() && 0 <= i < self.spec_len()
    {
        seq![i as usize] + self.child_visits(i, self.children(i).len() as int)
    }

    /// The visits of the first `k` children of `i`, one after the other.
    pub open spec fn child_visits(self, i: int, k: int) -> Seq<usize>
        decreases self.rank(i), 0int, k
        when self.wf() && 0 <= i < self.spec_len() && 0 <= k <= self.children(i).len()
    {
        if k <= 0 {
            Seq::empty()
        } else {
            self.child_visits(i, k - 1) + self.visits(self.children(i)[k - 1] as int)
        }
    }

    pub open spec fn draw_call_of(self, i: usize) -> DrawCall {
        let n = self.spec_node(i as int);
        DrawCall {
            node: i,
            vao: n.vao.vao,
            index_count: n.index_count,
            node_type: n.node_type.spec_code(),
            through_camera: !(n.node_type is Geometry2d),
            texture_id: n.texture_id,
            has_texture: n.texture_id is Some,
        }
    }

    /// The draw calls of the nodes in `s`, in order: one for each node of a
    /// drawable kind, none for the others.
    pub open spec fn draws_of(self, s: Seq<usize>) -> Seq<DrawCall>
        decreases s.len(),
    {
        if s.len() == 0 {
            Seq::empty()
        } else {
            let rest = self.draws_of(s.drop_last());
            if self.spec_node(s.last() as int).node_type.spec_is_drawable() {
                rest.push(self.draw_call_of(s.last()))
            } else {
                rest
            }
        }
    }

    /// The draw calls of a frame that draws the tree under `i`.
    pub open spec fn draws(self, i: int) -> Seq<DrawCall> {
        self.draws_of(self.visits(i))
    }

    /// Every node of a drawable kind in `s` has a draw handle.
    pub open spec fn handles_present(self, s: Seq<usize>) -> bool {
        forall|j: int|
            0 <= j < s.len() && self.spec_node(s[j] as int).node_type.spec_is_drawable()
                ==> self.spec_node(s[j] as int).has_handle()
    }

    /// The outcome that `attach(parent, child)` has on this graph.
    pub open spec fn attach_outcome(self, parent: usize, child: usize) -> Result<(), SceneError> {
        if parent >= self.spec_len() || child >= self.spec_len() {
            Err(SceneError::NoSuchNode)
        } else if self.spec_parent(child as int) is Some {
            Err(SceneError::AlreadyAttached)
        } else if self.spec_root(parent as int) == child {
            Err(SceneError::WouldCycle)
        } else {
            Ok(())
        }
    }

    /// A graph without nodes.
    pub fn new() -> (r: SceneGraph)
        ensures
            r.wf(),
            r.spec_len() == 0,
    {
        SceneGraph {
            nodes: Vec::new(),
            parents: Vec::new(),
            roots: Vec::new(),
            height: Ghost(Seq::empty()),
        }
    }

    pub fn len(&self) -> (r: usize)
        ensures
            r == self.spec_len(),
    {
        self.nodes.len()
    }

    pub fn node(&self, i: usize) -> (r: &SceneNode)
        requires
            i < self.spec_len(),
        ensures
            *r == self.spec_node(i as int),
    {
        &self.nodes[i]
    }

    pub fn parent(&self, i: usize) -> (r: Option<usize>)
        requires
            self.wf(),
            i < self.spec_len(),
        ensures
            r == self.spec_parent(i as int),
    {
        self.parents[i]
    }

    pub fn root_of(&self, i: usize) -> (r: usize)
        requires
            self.wf(),
            i < self.spec_len(),
        ensures
            r == self.spec_root(i as int),
    {
        self.roots[i]
    }

    /// Adds `node` as a tree of its own and returns its index.
    pub fn add_node(&mut self, node: SceneNode) -> (r: usize)
        requires
            old(self).wf(),
            old(self).spec_len() < usize::MAX,
            node.children@.len() == 0,
        ensures
            final(self).wf(),
            r == old(self).spec_len(),
            final(self).spec_len() == old(self).spec_len() + 1,
            final(self).spec_node(r as int) == node,
            final(self).spec_parent(r as int) is None,
            final(self).spec_root(r as int) == r,
            forall|i: int|
                0 <= i < old(self).spec_len() ==> final(self).spec_node(i) == old(self).spec_node(i)
                    && final(self).spec_parent(i) == old(self).spec_parent(i)
                    && final(self).spec_root(i) == old(self).spec_root(i),
    {
        let r = self.nodes.len();
        self.nodes.push(node);
        self.parents.push(None);
        self.roots.push(r);
        self.height = Ghost(self.height@.push(0));
        proof {
            assert forall|i: int, k: int|
                #![trigger self.nodes@[i].children@[k]]
                0 <= i < self.nodes@.len() && 0 <= k < self.nodes@[i].children@.len()
                implies {
                let c = self.nodes@[i].children@[k];
                &&& c < self.nodes@.len()
                &&& self.parents@[c as int] == Some(i as usize)
                &&& self.height@[c as int] < self.height@[i]
            } by {
                assert(i < r);
                let _ = old(self).nodes@[i].children@[k];
            }
            assert forall|i: int| #![trigger self.parents@[i]] 0 <= i < self.nodes@.len() implies match self.parents@[i] {
                Some(p) => p < self.nodes@.len() && self.roots@[i] == self.roots@[p as int],
                None => self.roots@[i] == i,
            } by {
                if i < r {
                    let _ = old(self).parents@[i];
                }
            }
            assert forall|i: int| #![trigger self.roots@[i]] 0 <= i < self.nodes@.len() implies self.roots@[i] < self.nodes@.len()
                && self.parents@[self.roots@[i] as int] is None by {
                if i < r {
                    let _ = old(self).roots@[i];
                }
            }
        }
        r
    }

    /// Makes `child`, the root of a tree, a child of `parent`. Refused when
    /// either index is out of range, when `child` already has a parent, and
    /// when `child` is the root of `parent`'s tree, which would close a cycle.
    pub fn attach(&mut self, parent: usize, child: usize) -> (r: Result<(), SceneError>)
        requires
            old(self).wf(),
        ensures
            final(self).wf(),
            r == old(self).attach_outcome(parent, child),
            r is Err ==> *final(self) == *old(self),
            r is Ok ==> {
                &&& final(self).spec_len() == old(self).spec_len()
                &&& final(self).children(parent as int) == old(self).children(parent as int).push(child)
                &&& final(self).spec_parent(child as int) == Some(parent)
                &&& forall|i: int|
                    0 <= i < old(self).spec_len() && i != parent ==> final(self).spec_node(i)
                        == old(self).spec_node(i)
                &&& forall|i: int|
                    0 <= i < old(self).spec_len() && i != child ==> final(self).spec_parent(i)
                        == old(self).spec_parent(i)
            },
            r is Ok ==> {
                let p = old(self).spec_node(parent as int);
                let q = final(self).spec_node(parent as int);
                &&& q.node_type == p.node_type
                &&& q.name == p.name
                &&& q.vao == p.vao
                &&& q.index_count == p.index_count
                &&& q.texture_id == p.texture_id
            },
    {
        if parent >= self.nodes.len() || child >= self.nodes.len() {
            return Err(SceneError::NoSuchNode);
        }
        if self.parents[child].is_some() {
            return Err(SceneError::AlreadyAttached);
        }
        let rp = self.roots[parent];
        if rp == child {
            return Err(SceneError::WouldCycle);
        }
        let ghost g0 = *self;
        let n = self.roots.len();
        let mut new_roots: Vec<usize> = Vec::new();
        let mut x: usize = 0;
        while x < n
            invariant
                n == g0.roots@.len(),
                x <= n,
                new_roots@.len() == x,
                forall|j: int|
                    0 <= j < x ==> new_roots@[j] == (if g0.roots@[j] == child {
                        rp
                    } else {
                        g0.roots@[j]
                    }),
                g0 == *self,
            decreases n - x,
        {
            if self.roots[x] == child {
                new_roots.push(rp);
            } else {
                new_roots.push(self.roots[x]);
            }
            x = x + 1;
        }
        let ghost hc = g0.height@[child as int];
        self.height = Ghost(
            Seq::new(
                n as nat,
                |j: int|
                    if g0.roots@[j] == child {
                        g0.height@[j]
                    } else {
                        g0.height@[j] + hc + 1
                    },
            ),
        );
        self.roots = new_roots;
        self.parents.set(child, Some(parent));
        self.nodes[parent].children.push(child);
        proof {
            let m = self.nodes@.len();
            assert forall|i: int, k: int|
                #![trigger self.nodes@[i].children@[k]]
                0 <= i < m && 0 <= k < self.nodes@[i].children@.len() implies {
                let c = self.nodes@[i].children@[k];
                &&& c < m
                &&& self.parents@[c as int] == Some(i as usize)
                &&& self.height@[c as int] < self.height@[i]
            } by {
                if i == parent && k == g0.nodes@[i].children@.len() {
                    assert(self.nodes@[i].children@[k] == child);
                    let _ = g0.parents@[child as int];
                    let _ = g0.roots@[parent as int];
                } else {
                    assert(self.nodes@[i].children@[k] == g0.nodes@[i].children@[k]);
                    let c = g0.nodes@[i].children@[k];
                    let _ = g0.parents@[c as int];
                    let _ = g0.parents@[child as int];
                }
            }
            assert forall|i: int| #![trigger self.parents@[i]] 0 <= i < m implies match self.parents@[i] {
                Some(p) => p < m && self.roots@[i] == self.roots@[p as int],
                None => self.roots@[i] == i,
            } by {
                let _ = g0.parents@[i];
                let _ = g0.parents@[child as int];
                let _ = g0.parents@[parent as int];
                let _ = g0.roots@[parent as int];
            }
            assert forall|i: int| #![trigger self.roots@[i]] 0 <= i < m implies self.roots@[i] < m
                && self.parents@[self.roots@[i] as int] is None by {
                let _ = g0.roots@[i];
                let _ = g0.roots@[parent as int];
                let _ = g0.parents@[child as int];
            }
        }
        Ok(())
    }

    pub fn set_node_type(&mut self, i: usize, node_type: SceneNodeType)
        requires
            old(self).wf(),
            i < old(self).spec_len(),
        ensures
            final(self).wf(),
            final(self).spec_len() == old(self).spec_len(),
            final(self).spec_node(i as int).node_type == node_type,
            final(self).spec_node(i as int).children@ == old(self).spec_node(i as int).children@,
            final(self).spec_node(i as int).index_count == old(self).spec_node(i as int).index_count,
            final(self).spec_node(i as int).texture_id == old(self).spec_node(i as int).texture_id,
            final(self).spec_node(i as int).vao == old(self).spec_node(i as int).vao,
            forall|j: int|
                0 <= j < old(self).spec_len() && j != i ==> final(self).spec_node(j)
                    == old(self).spec_node(j),
            forall|j: int|
                0 <= j < old(self).spec_len() ==> final(self).spec_parent(j) == old(self).spec_parent(
                    j,
                ),
    {
        let ghost g0 = *self;
        self.nodes[i].node_type = node_type;
        proof {
            assert forall|a: int, k: int|
                #![trigger self.nodes@[a].children@[k]]
                0 <= a < self.nodes@.len() && 0 <= k < self.nodes@[a].children@.len() implies {
                let c = self.nodes@[a].children@[k];
                &&& c < self.nodes@.len()
                &&& self.parents@[c as int] == Some(a as usize)
                &&& self.height@[c as int] < self.height@[a]
            } by {
                let _ = g0.nodes@[a].children@[k];
            }
        }
    }

    pub fn set_texture(&mut self, i: usize, texture_id: Option<u32>)
        requires
            old(self).wf(),
            i < old(self).spec_len(),
        ensures
            final(self).wf(),
            final(self).spec_len() == old(self).spec_len(),
            final(self).spec_node(i as int).texture_id == texture_id,
            final(self).spec_node(i as int).children@ == old(self).spec_node(i as int).children@,
            final(self).spec_node(i as int).index_count == old(self).spec_node(i as int).index_count,
            final(self).spec_node(i as int).node_type == old(self).spec_node(i as int).node_type,
            final(self).spec_node(i as int).vao == old(self).spec_node(i as int).vao,
            forall|j: int|
                0 <= j < old(self).spec_len() && j != i ==> final(self).spec_node(j)
                    == old(self).spec_node(j),
            forall|j: int|
                0 <= j < old(self).spec_len() ==> final(self).spec_parent(j) == old(self).spec_parent(
                    j,
                ),
    {
        let ghost g0 = *self;
        self.nodes[i].texture_id = texture_id;
        proof {
            assert forall|a: int, k: int|
                #![trigger self.nodes@[a].children@[k]]
                0 <= a < self.nodes@.len() && 0 <= k < self.nodes@[a].children@.len() implies {
                let c = self.nodes@[a].children@[k];
                &&& c < self.nodes@.len()
                &&& self.parents@[c as int] == Some(a as usize)
                &&& self.height@[c as int] < self.height@[a]
            } by {
                let _ = g0.nodes@[a].children@[k];
            }
        }
    }

    /// Each step after the first takes its parent's world transform from an
    /// earlier step, at which that parent was computed.
    pub open spec fn parents_first(self, steps: Seq<UpdateStep>, from: int) -> bool {
        forall|t: int|
            #![trigger steps[t]]
            from < t < steps.len() ==> match steps[t].parent_slot {
                Some(j) => j < t && self.spec_parent(steps[t].node as int) == Some(steps[j as int].node),
                None => false,
            }
    }

    fn visit_into(&self, i: usize, parent_slot: Option<usize>, out: &mut Vec<UpdateStep>)
        requires
            self.wf(),
            i < self.spec_len(),
            match parent_slot {
                Some(j) => j < old(out)@.len() && self.spec_parent(i as int) == Some(old(out)@[j as int].node),
                None => true,
            },
        ensures
            final(out)@.len() == old(out)@.len() + self.visits(i as int).len(),
            forall|t: int| 0 <= t < old(out)@.len() ==> final(out)@[t] == old(out)@[t],
            forall|t: int|
                0 <= t < self.visits(i as int).len() ==> final(out)@[old(out)@.len() + t].node
                    == self.visits(i as int)[t],
            final(out)@[old(out)@.len() as int].parent_slot == parent_slot,
            self.parents_first(final(out)@, old(out)@.len() as int),
            forall|t: int|
                old(out)@.len() <= t < final(out)@.len() ==> final(out)@[t].node < self.spec_len(),
        decreases self.rank(i as int),
    {
        let ghost out0 = out@;
        let s = out.len();
        out.push(UpdateStep { node: i, parent_slot });
        let n = self.nodes[i].children.len();
        let mut k: usize = 0;
        while k < n
            invariant
                self.wf(),
                i < self.spec_len(),
                n == self.children(i as int).len(),
                k <= n,
                s == out0.len(),
                out@.len() == s + 1 + self.child_visits(i as int, k as int).len(),
                forall|t: int| 0 <= t < s ==> out@[t] == out0[t],
                out@[s as int] == (UpdateStep { node: i, parent_slot }),
                forall|t: int|
                    0 <= t < self.child_visits(i as int, k as int).len() ==> out@[s + 1 + t].node
                        == self.child_visits(i as int, k as int)[t],
                self.parents_first(out@, s as int),
                forall|t: int| s <= t < out@.len() ==> out@[t].node < self.spec_len(),
            decreases n - k,
        {
            let c = self.nodes[i].children[k];
            proof {
                self.lemma_child(i as int, k as int);
            }
            let ghost before = out@;
            self.visit_into(c, Some(s), out);
            proof {
                let cv = self.child_visits(i as int, k as int);
                let vc = self.visits(c as int);
                assert(self.child_visits(i as int, k + 1) == cv + vc);
                assert forall|t: int| 0 <= t < (cv + vc).len() implies out@[s + 1 + t].node == (cv
                    + vc)[t] by {
                    if t < cv.len() {
                        assert(out@[s + 1 + t] == before[s + 1 + t]);
                    } else {
                        assert(out@[before.len() + (t - cv.len())].node == vc[t - cv.len()]);
                    }
                }
                assert forall|t: int|
                    #![trigger out@[t]]
                    s < t < out@.len() implies match out@[t].parent_slot {
                        Some(j) => j < t && self.spec_parent(out@[t].node as int) == Some(out@[j as int].node),
                        None => false,
                    } by {
                    if t < before.len() {
                        assert(out@[t] == before[t]);
                        let _ = before[t];
                        match before[t].parent_slot {
                            Some(j) => {
                                assert(out@[j as int] == before[j as int]);
                            },
                            None => {},
                        }
                    } else if t > before.len() {
                    } else {
                        assert(vc[0] == c);
                        assert(out@[before.len() + 0int].node == vc[0]);
                        assert(out@[s as int] == before[s as int]);
                    }
                }
            }
            k = k + 1;
        }
        proof {
            let cv = self.child_visits(i as int, n as int);
            assert(self.visits(i as int) == seq![i] + cv);
            assert forall|t: int| 0 <= t < self.visits(i as int).len() implies out@[s + t].node
                == self.visits(i as int)[t] by {
                if t > 0 {
                    assert(out@[s + 1 + (t - 1)].node == cv[t - 1]);
                }
            }
        }
    }

    /// The transform pass over the tree under `root`: the nodes in
    /// depth-first pre-order, each after its parent. The first step takes the
    /// transform handed in; every other takes its parent's.
    pub fn update_order(&self, root: usize) -> (r: Vec<UpdateStep>)
        requires
            self.wf(),
            root < self.spec_len(),
        ensures
            r@.len() == self.visits(root as int).len(),
            forall|t: int| 0 <= t < r@.len() ==> r@[t].node == self.visits(root as int)[t],
            r@[0] == (UpdateStep { node: root, parent_slot: None }),
            self.parents_first(r@, 0),
            forall|t: int| 0 <= t < r@.len() ==> r@[t].node < self.spec_len(),
    {
        let mut out: Vec<UpdateStep> = Vec::new();
        self.visit_into(root, None, &mut out);
        proof {
            assert(self.visits(root as int)[0] == root);
        }
        out
    }

    /// The draw calls of one frame over the tree under `root`, in depth-first
    /// pre-order; refused, naming a node, when a node of a drawable kind in
    /// that tree has no draw handle.
    pub fn draw_list(&self, root: usize) -> (r: Result<Vec<DrawCall>, SceneError>)
        requires
            self.wf(),
            root < self.spec_len(),
        ensures
            r is Ok <==> self.handles_present(self.visits(root as int)),
            r matches Ok(v) ==> v@ == self.draws(root as int),
            r matches Err(e) ==> (e matches SceneError::MissingHandle(k)
                && self.visits(root as int).contains(k)
                && self.spec_node(k as int).node_type.spec_is_drawable()
                && !self.spec_node(k as int).has_handle()),
    {
        let plan = self.update_order(root);
        let ghost vs = self.visits(root as int);
        let mut out: Vec<DrawCall> = Vec::new();
        let mut k: usize = 0;
        while k < plan.len()
            invariant
                plan@.len() == vs.len(),
                vs == self.visits(root as int),
                forall|t: int| 0 <= t < plan@.len() ==> plan@[t].node == vs[t],
                forall|t: int| 0 <= t < plan@.len() ==> plan@[t].node < self.spec_len(),
                k <= plan@.len(),
                out@ == self.draws_of(vs.take(k as int)),
                self.handles_present(vs.take(k as int)),
            decreases plan@.len() - k,
        {
            let j = plan[k].node;
            let nd = &self.nodes[j];
            proof {
                assert(vs.take(k + 1).drop_last() =~= vs.take(k as int));
                assert(vs.take(k + 1).last() == j);
            }
            if nd.node_type.is_drawable() {
                if nd.index_count < 0 {
                    proof {
                        assert(vs[k as int] == j);
                    }
                    return Err(SceneError::MissingHandle(j));
                }
                out.push(
                    DrawCall {
                        node: j,
                        vao: nd.vao.vao,
                        index_count: nd.index_count,
                        node_type: nd.node_type.code(),
                        through_camera: !matches!(nd.node_type, SceneNodeType::Geometry2d),
                        texture_id: nd.texture_id,
                        has_texture: nd.texture_id.is_some(),
                    },
                );
            }
            proof {
                assert forall|t: int|
                    #![trigger vs.take(k + 1)[t]]
                    0 <= t < vs.take(k + 1).len() && self.spec_node(
                        vs.take(k + 1)[t] as int,
                    ).node_type.spec_is_drawable() implies self.spec_node(
                    vs.take(k + 1)[t] as int,
                ).has_handle() by {
                    if t < k {
                        assert(vs.take(k + 1)[t] == vs.take(k as int)[t]);
                    }
                }
            }
            k = k + 1;
        }
        proof {
            assert(vs.take(k as int) =~= vs);
        }
        Ok(out)
    }

    /// Node `i` is a face of the cubesphere under `center`, drawing `vao`.
    pub open spec fn is_planet_face(self, i: int, center: usize, vao: VAOobj) -> bool {
        let f = self.spec_node(i);
        &&& f.node_type == SceneNodeType::Planet
        &&& f.vao == vao
        &&& f.index_count == vao.n
        &&& f.texture_id is None
        &&& f.children@.len() == 0
        &&& self.spec_parent(i) == Some(center)
    }

    /// A node without a parent is the root of its own tree.
    pub proof fn lemma_top_is_own_root(self, i: int)
        requires
            self.wf(),
            0 <= i < self.spec_len(),
            self.spec_parent(i) is None,
        ensures
            self.spec_root(i) == i,
    {
        let _ = self.parents@[i];
    }

    /// Drawing two runs of nodes one after the other gives the draw calls of
    /// the first run, then those of the second.
    pub proof fn lemma_draws_of_concat(self, a: Seq<usize>, b: Seq<usize>)
        ensures
            self.draws_of(a + b) == self.draws_of(a) + self.draws_of(b),
        decreases b.len(),
    {
        if b.len() == 0 {
            assert(a + b =~= a);
            assert(self.draws_of(a) + self.draws_of(b) =~= self.draws_of(a));
        } else {
            self.lemma_draws_of_concat(a, b.drop_last());
            assert((a + b).drop_last() =~= a + b.drop_last());
            assert((a + b).last() == b.last());
            let da = self.draws_of(a);
            let db = self.draws_of(b.drop_last());
            if self.spec_node(b.last() as int).node_type.spec_is_drawable() {
                assert((da + db).push(self.draw_call_of(b.last())) =~= da + db.push(
                    self.draw_call_of(b.last()),
                ));
            }
        }
    }

    proof fn lemma_children_visited(self, i: int, m: int)
        requires
            self.wf(),
            0 <= i < self.spec_len(),
            0 <= m <= self.children(i).len(),
        ensures
            forall|k: int| 0 <= k < m ==> self.child_visits(i, m).contains(self.children(i)[k]),
        decreases m,
    {
        if m > 0 {
            self.lemma_children_visited(i, m - 1);
            let a = self.child_visits(i, m - 1);
            let c = self.children(i)[m - 1];
            self.lemma_child(i, m - 1);
            let b = self.visits(c as int);
            assert(self.child_visits(i, m) == a + b);
            assert(b[0] == c);
            assert((a + b)[a.len() as int] == c);
            assert forall|k: int| 0 <= k < m implies (a + b).contains(self.children(i)[k]) by {
                if k < m - 1 {
                    let x = self.children(i)[k];
                    let w = choose|w: int| 0 <= w < a.len() && a[w] == x;
                    assert((a + b)[w] == x);
                }
            }
        }
    }

    /// A node of a kind that draws nothing (an empty node, a light source)
    /// adds no draw call of its own, and every one of its children is still
    /// visited: its draw calls are exactly those of its children's trees.
    pub proof fn lemma_undrawable_node(self, i: int)
        requires
            self.wf(),
            0 <= i < self.spec_len(),
            !self.spec_node(i).node_type.spec_is_drawable(),
        ensures
            self.draws(i) == self.draws_of(self.child_visits(i, self.children(i).len() as int)),
            forall|k: int|
                0 <= k < self.children(i).len() ==> self.visits(i).contains(self.children(i)[k]),
    {
        let n = self.children(i).len() as int;
        let cv = self.child_visits(i, n);
        assert(self.visits(i) == seq![i as usize] + cv);
        self.lemma_draws_of_concat(seq![i as usize], cv);
        let one = seq![i as usize];
        assert(one.drop_last() =~= Seq::<usize>::empty());
        assert(self.draws_of(Seq::<usize>::empty()) =~= Seq::<DrawCall>::empty());
        assert(one.last() as int == i);
        assert(self.draws_of(one) =~= Seq::<DrawCall>::empty());
        assert(Seq::<DrawCall>::empty() + self.draws_of(cv) =~= self.draws_of(cv));
        self.lemma_children_visited(i, n);
        assert forall|k: int| 0 <= k < n implies self.visits(i).contains(self.children(i)[k]) by {
            let x = self.children(i)[k];
            let w = choose|w: int| 0 <= w < cv.len() && cv[w] == x;
            assert(self.visits(i)[w + 1] == x);
        }
    }
}

} // verus!
