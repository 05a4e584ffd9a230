//! What a frame draws: the depth-first walk over the node hierarchy and the
//! draw call that each primitive yields under the skip policy.
//!
//! Transforms are not computed here: a visit names its parent visit, so the
//! caller composes `parent * translation * rotation * scale` in visit order.

use crate::scene::{Accessor, Element, Glb, GlbView, PrimitiveView};
use vstd::prelude::*;

verus! {

/// Encoding of an index stream.
#[derive(Debug, Clone, Copy, PartialEq, Eq)]
pub enum IndexFormat {
    Uint16,
    Uint32,
}

/// One indexed draw: the material to bind, the byte offsets of the four
/// vertex streams and of the index stream in the blob, and the index count.
#[derive(Debug, Clone, Copy, PartialEq, Eq)]
pub struct DrawCall {
    pub material: usize,
    pub position_offset: usize,
    pub normal_offset: usize,
    pub texcoord_0_offset: usize,
    pub texcoord_1_offset: usize,
    pub index_offset: usize,
    pub index_format: IndexFormat,
    pub index_count: usize,
}

/// One node visit of a frame, in depth-first order. `parent` is the
/// position of the parent's visit in the same plan (`None` for a root).
#[derive(Debug, Clone, Copy, PartialEq, Eq)]
pub struct Visit {
    pub node: usize,
    pub parent: Option<usize>,
}

/// A draw call of a frame, with the position of the visit (in the frame's
/// plan) whose transform it is drawn with.
#[derive(Debug, Clone, Copy, PartialEq, Eq)]
pub struct FrameDraw {
    pub visit: usize,
    pub call: DrawCall,
}

/// What a frame does: the node visits in order, and the draw calls in issue
/// order.
pub struct Frame {
    pub visits: Vec<Visit>,
    pub draws: Vec<FrameDraw>,
}

/// Index formats that can be drawn: 16-bit and 32-bit unsigned.
pub open spec fn index_format_spec(component_type: usize) -> Option<IndexFormat> {
    if component_type == 5123 {
        Some(IndexFormat::Uint16)
    } else if component_type == 5125 {
        Some(IndexFormat::Uint32)
    } else {
        None
    }
}

/// The draw call of a primitive, or `None` when it is skipped: it lacks a
/// position or normal stream, indices or a material, or its indices are not
/// 16- or 32-bit unsigned. A missing texture coordinate stream is bound to
/// the position stream.
pub open spec fn primitive_draw(acc: Seq<Accessor>, p: PrimitiveView) -> Option<DrawCall> {
    match (p.attributes.position, p.attributes.normal, p.indices, p.material) {
        (Some(pos), Some(nrm), Some(ix), Some(mat)) => match index_format_spec(acc[ix as int].component_type) {
            Some(f) => {
                let t0 = match p.attributes.texcoord_0 {
                    Some(t) => t,
                    None => pos,
                };
                let t1 = match p.attributes.texcoord_1 {
                    Some(t) => t,
                    None => pos,
                };
                Some(
                    DrawCall {
                        material: mat,
                        position_offset: acc[pos as int].offset,
                        normal_offset: acc[nrm as int].offset,
                        texcoord_0_offset: acc[t0 as int].offset,
                        texcoord_1_offset: acc[t1 as int].offset,
                        index_offset: acc[ix as int].offset,
                        index_format: f,
                        index_count: acc[ix as int].count,
                    },
                )
            },
            None => None,
        },
        _ => None,
    }
}

/// The draw calls of a sequence of primitives, in order, skipped ones left
/// out.
pub open spec fn primitives_draws(acc: Seq<Accessor>, prims: Seq<PrimitiveView>) -> Seq<DrawCall>
    decreases prims.len(),
{
    if prims.len() == 0 {
        Seq::empty()
    } else {
        primitives_draws(acc, prims.drop_last()) + match primitive_draw(acc, prims.last()) {
            Some(d) => seq![d],
            None => Seq::empty(),
        }
    }
}

/// The draw calls of a mesh.
pub open spec fn mesh_draws(g: GlbView, mesh: int) -> Seq<DrawCall> {
    primitives_draws(g.accessors, g.meshes[mesh].primitives)
}

/// The visits of the subtree under node `n`, placed from position `at` on.
/// `fuel` bounds the depth: a path longer than the node count revisits a
/// node, so a cyclic hierarchy is cut off there.
pub open spec fn subtree(g: GlbView, n: usize, parent: Option<usize>, at: nat, fuel: nat) -> Seq<Visit>
    decreases fuel, 0nat,
{
    if fuel == 0 || n >= g.nodes.len() {
        Seq::empty()
    } else {
        seq![Visit { node: n, parent }] + forest(g, g.nodes[n as int].children, at, at + 1, (fuel - 1) as nat)
    }
}

/// The visits of the subtrees under `kids`, in order, children of the visit
/// at `parent_at`, placed from position `at` on.
pub open spec fn forest(g: GlbView, kids: Seq<usize>, parent_at: nat, at: nat, fuel: nat) -> Seq<Visit>
    decreases fuel, kids.len(),
{
    if kids.len() == 0 {
        Seq::empty()
    } else {
        let before = forest(g, kids.drop_last(), parent_at, at, fuel);
        before + subtree(g, kids.last(), Some(parent_at as usize), at + before.len(), fuel)
    }
}

/// The visits of the subtrees under the first `k` roots.
pub open spec fn roots_plan(g: GlbView, k: nat) -> Seq<Visit>
    decreases k,
{
    if k == 0 || k > g.roots.len() {
        Seq::empty()
    } else {
        let before = roots_plan(g, (k - 1) as nat);
        before + subtree(g, g.roots[k - 1], None, before.len(), g.nodes.len())
    }
}

/// The visits of a frame: every root in order, each subtree depth-first,
/// children in array order.
pub open spec fn plan(g: GlbView) -> Seq<Visit> {
    roots_plan(g, g.roots.len())
}

/// The draw calls of node `n`: those of its mesh, if it carries one.
pub open spec fn node_draws(g: GlbView, n: usize) -> Seq<DrawCall> {
    if n < g.nodes.len() {
        match g.nodes[n as int].element {
            Element::Mesh(m) => if m < g.meshes.len() {
                mesh_draws(g, m as int)
            } else {
                Seq::empty()
            },
            Element::Empty => Seq::empty(),
        }
    } else {
        Seq::empty()
    }
}

/// Each draw call of `calls` tagged with the visit at position `visit`.
pub open spec fn tagged(calls: Seq<DrawCall>, visit: usize) -> Seq<FrameDraw> {
    calls.map_values(|c: DrawCall| FrameDraw { visit, call: c })
}

/// The draw calls issued along a sequence of visits, each tagged with the
/// position of the visit it belongs to.
pub open spec fn draws_along(g: GlbView, visits: Seq<Visit>) -> Seq<FrameDraw>
    decreases visits.len(),
{
    if visits.len() == 0 {
        Seq::empty()
    } else {
        draws_along(g, visits.drop_last()) + tagged(node_draws(g, visits.last().node), (visits.len() - 1) as usize)
    }
}

/// The draw calls of a frame, in issue order.
pub open spec fn frame_draws(g: GlbView) -> Seq<FrameDraw> {
    draws_along(g, plan(g))
}

fn index_format(component_type: usize) -> (r: Option<IndexFormat>)
    ensures
        r == index_format_spec(component_type),
{
    if component_type == 5123 {
        Some(IndexFormat::Uint16)
    } else if component_type == 5125 {
        Some(IndexFormat::Uint32)
    } else {
        None
    }
}

/// The draw calls of mesh `mesh`, in primitive order, skipped primitives
/// left out.
pub fn draw_mesh(g: &Glb, mesh: usize) -> (r: Vec<DrawCall>)
    requires
        g@.wf(),
        mesh < g@.meshes.len(),
    ensures
        r@ == mesh_draws(g@, mesh as int),
{
    let ghost gv = g@;
    let prims = &g.meshes[mesh].primitives;
    assert(gv.meshes[mesh as int].primitives =~= crate::scene::primitive_views(prims@));
    let mut out: Vec<DrawCall> = Vec::new();
    let mut k: usize = 0;
    while k < prims.len()
        invariant
            gv == g@,
            gv.wf(),
            mesh < gv.meshes.len(),
            gv.meshes[mesh as int].primitives == crate::scene::primitive_views(prims@),
            k <= prims@.len(),
            out@ == primitives_draws(gv.accessors, gv.meshes[mesh as int].primitives.take(k as int)),
        decreases prims.len() - k,
    {
        let ghost ps = gv.meshes[mesh as int].primitives;
        assert(ps.take(k + 1).drop_last() =~= ps.take(k as int));
        assert(ps[k as int] == prims@[k as int]@);
        assert(ps[k as int].refs_ok(gv.accessors.len(), gv.materials.len()));
        let p = &prims[k];
        let a = &p.attributes;
        match (a.position, a.normal, p.indices, p.material) {
            (Some(pos), Some(nrm), Some(ix), Some(mat)) => match index_format(g.accessors[ix].component_type) {
                Some(f) => {
                    let t0 = match a.texcoord_0 {
                        Some(t) => t,
                        None => pos,
                    };
                    let t1 = match a.texcoord_1 {
                        Some(t) => t,
                        None => pos,
                    };
                    out.push(
                        DrawCall {
                            material: mat,
                            position_offset: g.accessors[pos].offset,
                            normal_offset: g.accessors[nrm].offset,
                            texcoord_0_offset: g.accessors[t0].offset,
                            texcoord_1_offset: g.accessors[t1].offset,
                            index_offset: g.accessors[ix].offset,
                            index_format: f,
                            index_count: g.accessors[ix].count,
                        },
                    );
                },
                None => {},
            },
            _ => {},
        }
        k = k + 1;
    }
    assert(gv.meshes[mesh as int].primitives.take(prims@.len() as int) =~= gv.meshes[mesh as int].primitives);
    out
}

/// Appends the visits of the subtree under node `n`.
fn visit_node(g: &Glb, n: usize, parent: Option<usize>, fuel: usize, out: &mut Vec<Visit>)
    ensures
        final(out)@ == old(out)@ + subtree(g@, n, parent, old(out)@.len(), fuel as nat),
    decreases fuel,
{
    if fuel == 0 || n >= g.nodes.len() {
        return;
    }
    let ghost start = out@;
    let at = out.len();
    out.push(Visit { node: n, parent });
    let kids = &g.nodes[n].children;
    let ghost kv = g@.nodes[n as int].children;
    assert(kv == kids@);
    let mut k: usize = 0;
    while k < kids.len()
        invariant
            kv == kids@,
            at == start.len(),
            fuel > 0,
            k <= kids@.len(),
            out@ == start + seq![Visit { node: n, parent }] + forest(g@, kv.take(k as int), at as nat, (at + 1) as nat, (fuel - 1) as nat),
        decreases kids.len() - k,
    {
        assert(kv.take(k + 1).drop_last() =~= kv.take(k as int));
        visit_node(g, kids[k], Some(at), fuel - 1, out);
        k = k + 1;
        assert(out@ =~= start + seq![Visit { node: n, parent }] + forest(g@, kv.take(k as int), at as nat, (at + 1) as nat, (fuel - 1) as nat));
    }
    assert(kv.take(kids@.len() as int) =~= kv);
    assert(out@ =~= start + subtree(g@, n, parent, start.len(), fuel as nat));
}

/// The visits of a frame, in depth-first order from each root in turn,
/// children in array order.
pub fn render_plan(g: &Glb) -> (r: Vec<Visit>)
    ensures
        r@ == plan(g@),
{
    let mut out: Vec<Visit> = Vec::new();
    let fuel = g.nodes.len();
    let mut k: usize = 0;
    while k < g.roots.len()
        invariant
            fuel == g@.nodes.len(),
            k <= g@.roots.len(),
            out@ == roots_plan(g@, k as nat),
        decreases g.roots.len() - k,
    {
        visit_node(g, g.roots[k], None, fuel, &mut out);
        k = k + 1;
    }
    out
}

/// A primitive without a normal stream, or whose indices are 8-bit
/// (component type 5121), contributes no draw call.
pub proof fn lemma_skip_policy(acc: Seq<Accessor>, p: PrimitiveView)
    requires
        p.attributes.normal is None || (p.indices matches Some(ix) && 0 <= ix < acc.len() && acc[ix as int].component_type == 5121),
    ensures
        primitives_draws(acc, seq![p]) == Seq::<DrawCall>::empty(),
{
    assert(seq![p].drop_last() =~= Seq::<PrimitiveView>::empty());
    assert(primitives_draws(acc, Seq::<PrimitiveView>::empty()) == Seq::<DrawCall>::empty());
    assert(primitive_draw(acc, p) is None);
    assert(primitives_draws(acc, seq![p]) =~= Seq::<DrawCall>::empty());
}

/// The draw calls of a frame depend on the scene model alone: two renders
/// of the same model visit the same nodes and issue the same sequence of
/// draw calls (material, vertex and index offsets, index count).
pub proof fn lemma_frame_deterministic(a: GlbView, b: GlbView)
    requires
        a == b,
    ensures
        plan(a) == plan(b),
        frame_draws(a) == frame_draws(b),
{
}

/// The visits and the draw calls of one frame of `g`: depth-first from each
/// root, children in array order, and for each visit of a node that carries
/// a mesh, the draw calls of its primitives in order.
pub fn render_frame(g: &Glb) -> (r: Frame)
    requires
        g@.wf(),
    ensures
        r.visits@ == plan(g@),
        r.draws@ == frame_draws(g@),
{
    let visits = render_plan(g);
    let mut draws: Vec<FrameDraw> = Vec::new();
    let mut i: usize = 0;
    while i < visits.len()
        invariant
            g@.wf(),
            i <= visits@.len(),
            draws@ == draws_along(g@, visits@.take(i as int)),
        decreases visits.len() - i,
    {
        assert(visits@.take(i + 1).drop_last() =~= visits@.take(i as int));
        let n = visits[i].node;
        let ghost before = draws@;
        if n < g.nodes.len() {
            match g.nodes[n].element {
                Element::Mesh(m) => if m < g.meshes.len() {
                    let calls = draw_mesh(g, m);
                    let mut k: usize = 0;
                    while k < calls.len()
                        invariant
                            k <= calls@.len(),
                            draws@ == before + tagged(calls@.take(k as int), i),
                        decreases calls.len() - k,
                    {
                        draws.push(FrameDraw { visit: i, call: calls[k] });
                        k = k + 1;
                        assert(draws@ =~= before + tagged(calls@.take(k as int), i));
                    }
                    assert(calls@.take(calls@.len() as int) =~= calls@);
                },
                Element::Empty => {
                    assert(draws@ =~= before + tagged(Seq::empty(), i));
                },
            }
        } else {
            assert(draws@ =~= before + tagged(Seq::empty(), i));
        }
        i = i + 1;
    }
    assert(visits@.take(visits@.len() as int) =~= visits@);
    Frame { visits, draws }
}

} // verus!
