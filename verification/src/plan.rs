//! Render plans: the software compositor's output.
//!
//! A commit turns each hosted subtree with pending damage into a
//! `RenderPlan`: the dirty rectangle to present and two ordered command
//! lists. The opaque pass paints surfaces flagged opaque in document
//! order, each overwriting what is under it; the transparent pass paints
//! the remaining surfaces back-to-front with premultiplied-alpha
//! blending. `spec_opaque_pass` and `spec_transparent_pass` give a plan
//! its meaning at a single sample point, and `composite_at` evaluates it.

use crate::geometry::ACC_LIMIT;
use crate::geometry::Rect;
use crate::layer_map::LayerId;
use crate::layer_map::LayerMap;
use vstd::prelude::*;

verus! {

/// One draw of a surface layer: its cached content, painted over the
/// screen-space rectangle `rect`, at quantized depth `depth_slot`.
///
/// Depth slots count surfaces in document (pre-order) position; a
/// backend multiplies the slot by its depth quantum when it draws.
#[derive(Clone, Copy, PartialEq, Eq, Structural, Debug)]
pub struct DrawCommand {
    pub layer: LayerId,
    pub framebuffer: u32,
    pub rect: Rect,
    pub depth_slot: u64,
}

/// The render work one hosted subtree needs for a commit: present the
/// `dirty` rectangle after painting `opaque` in order, then
/// `transparent` in order (the latter is already back-to-front).
#[derive(Debug)]
pub struct RenderPlan {
    pub root: LayerId,
    pub dirty: Rect,
    pub opaque: Vec<DrawCommand>,
    pub transparent: Vec<DrawCommand>,
}

/// The mathematical content of a render plan.
pub struct PlanView {
    pub root: LayerId,
    pub dirty: Rect,
    pub opaque: Seq<DrawCommand>,
    pub transparent: Seq<DrawCommand>,
}

impl View for RenderPlan {
    type V = PlanView;

    open spec fn view(&self) -> PlanView {
        PlanView {
            root: self.root,
            dirty: self.dirty,
            opaque: self.opaque@,
            transparent: self.transparent@,
        }
    }
}

/// A premultiplied-alpha color sample of a surface's cached content.
#[derive(Clone, Copy, PartialEq, Eq, Structural, Debug)]
pub struct Color {
    pub r: u8,
    pub g: u8,
    pub b: u8,
    pub a: u8,
}

impl Color {
    /// In premultiplied alpha no channel exceeds the alpha.
    pub open spec fn spec_premultiplied(self) -> bool {
        self.r <= self.a && self.g <= self.a && self.b <= self.a
    }
}

/// One channel of a source-over blend: `src + dst * (255 - src_a) / 255`,
/// rounding down.
pub open spec fn spec_blend_channel(src: u8, dst: u8, src_a: u8) -> int {
    src + dst * (255 - src_a) / 255
}

/// Source-over blending of premultiplied colors: the blend function of
/// the transparent pass (`ONE`, `ONE_MINUS_SRC_ALPHA`).
pub open spec fn spec_blend(src: Color, dst: Color) -> Color {
    Color {
        r: spec_blend_channel(src.r, dst.r, src.a) as u8,
        g: spec_blend_channel(src.g, dst.g, src.a) as u8,
        b: spec_blend_channel(src.b, dst.b, src.a) as u8,
        a: spec_blend_channel(src.a, dst.a, src.a) as u8,
    }
}

/// A blend channel of premultiplied inputs stays within a byte.
pub proof fn lemma_blend_channel_bounded(src: u8, dst: u8, src_a: u8)
    requires
        src <= src_a,
    ensures
        0 <= spec_blend_channel(src, dst, src_a) <= 255,
{
    assert(dst * (255 - src_a) <= 255 * (255 - src_a)) by (nonlinear_arith)
        requires
            dst <= 255,
            src_a <= 255,
    ;
    assert(dst * (255 - src_a) / 255 <= 255 * (255 - src_a) / 255) by (nonlinear_arith)
        requires
            dst * (255 - src_a) <= 255 * (255 - src_a),
    ;
}

/// Source-over blending of two premultiplied colors.
pub fn blend(src: Color, dst: Color) -> (r: Color)
    requires
        src.spec_premultiplied(),
        dst.spec_premultiplied(),
    ensures
        r == spec_blend(src, dst),
        r.spec_premultiplied(),
{
    proof {
        lemma_blend_channel_bounded(src.r, dst.r, src.a);
        lemma_blend_channel_bounded(src.g, dst.g, src.a);
        lemma_blend_channel_bounded(src.b, dst.b, src.a);
        lemma_blend_channel_bounded(src.a, dst.a, src.a);
        lemma_blend_premultiplied(src, dst);
    }
    let inv: u32 = 255u32 - (src.a as u32);
    let r = (src.r as u32) + (dst.r as u32) * inv / 255;
    let g = (src.g as u32) + (dst.g as u32) * inv / 255;
    let b = (src.b as u32) + (dst.b as u32) * inv / 255;
    let a = (src.a as u32) + (dst.a as u32) * inv / 255;
    Color { r: r as u8, g: g as u8, b: b as u8, a: a as u8 }
}

/// Blending two premultiplied colors yields a premultiplied color.
pub proof fn lemma_blend_premultiplied(src: Color, dst: Color)
    requires
        src.spec_premultiplied(),
        dst.spec_premultiplied(),
    ensures
        spec_blend(src, dst).spec_premultiplied(),
{
    lemma_blend_channel_bounded(src.r, dst.r, src.a);
    lemma_blend_channel_bounded(src.g, dst.g, src.a);
    lemma_blend_channel_bounded(src.b, dst.b, src.a);
    lemma_blend_channel_bounded(src.a, dst.a, src.a);
    assert(dst.r * (255 - src.a) / 255 <= dst.a * (255 - src.a) / 255) by (nonlinear_arith)
        requires
            dst.r <= dst.a,
            src.a <= 255,
    ;
    assert(dst.g * (255 - src.a) / 255 <= dst.a * (255 - src.a) / 255) by (nonlinear_arith)
        requires
            dst.g <= dst.a,
            src.a <= 255,
    ;
    assert(dst.b * (255 - src.a) / 255 <= dst.a * (255 - src.a) / 255) by (nonlinear_arith)
        requires
            dst.b <= dst.a,
            src.a <= 255,
    ;
}

/// The color after the opaque pass at point `(px, py)`: commands paint
/// in order, and a command whose rectangle covers the point and whose
/// layer has cached content overwrites what is under it. The last such
/// command wins; later commands carry higher depth slots, so this is
/// exactly what depth-tested drawing of the plan shows.
pub open spec fn spec_opaque_pass(
    cmds: Seq<DrawCommand>,
    colors: LayerMap<Color>,
    px: int,
    py: int,
    backdrop: Color,
) -> Color
    decreases cmds.len(),
{
    if cmds.len() == 0 {
        backdrop
    } else {
        let below = spec_opaque_pass(cmds.drop_last(), colors, px, py, backdrop);
        let cmd = cmds.last();
        if cmd.rect.spec_covers(px, py) && colors.spec_get(cmd.layer) is Some {
            colors.spec_get(cmd.layer)->Some_0
        } else {
            below
        }
    }
}

/// The color after the transparent pass at point `(px, py)`: commands
/// blend in order (the plan lists them back-to-front) over what the
/// opaque pass left.
pub open spec fn spec_transparent_pass(
    cmds: Seq<DrawCommand>,
    colors: LayerMap<Color>,
    px: int,
    py: int,
    base: Color,
) -> Color
    decreases cmds.len(),
{
    if cmds.len() == 0 {
        base
    } else {
        let below = spec_transparent_pass(cmds.drop_last(), colors, px, py, base);
        let cmd = cmds.last();
        if cmd.rect.spec_covers(px, py) && colors.spec_get(cmd.layer) is Some {
            spec_blend(colors.spec_get(cmd.layer)->Some_0, below)
        } else {
            below
        }
    }
}

/// Whether every rectangle of the command list stays within magnitude
/// `ACC_LIMIT` and every cached color it can sample is premultiplied.
pub open spec fn spec_pass_inputs_ok(cmds: Seq<DrawCommand>, colors: LayerMap<Color>) -> bool {
    &&& forall|i: int|
        0 <= i < cmds.len() ==> (#[trigger] cmds[i]).rect.spec_in_range(ACC_LIMIT as int)
    &&& forall|id: LayerId|
        (#[trigger] colors.spec_get(id)) matches Some(c) ==> c.spec_premultiplied()
}

/// Evaluates a plan at one sample point: the opaque pass over the
/// backdrop, then the transparent pass over its result. `colors` models
/// each surface's cached content as a single premultiplied color; a
/// surface without an entry contributes nothing, like a surface that was
/// never bound for rendering.
pub fn composite_at(plan: &RenderPlan, colors: &LayerMap<Color>, px: i64, py: i64, backdrop: Color) -> (r:
    Color)
    requires
        spec_pass_inputs_ok(plan.opaque@, *colors),
        spec_pass_inputs_ok(plan.transparent@, *colors),
        backdrop.spec_premultiplied(),
    ensures
        r == spec_transparent_pass(
            plan.transparent@,
            *colors,
            px as int,
            py as int,
            spec_opaque_pass(plan.opaque@, *colors, px as int, py as int, backdrop),
        ),
{
    let mut acc = backdrop;
    let mut i: usize = 0;
    while i < plan.opaque.len()
        invariant
            0 <= i <= plan.opaque@.len(),
            spec_pass_inputs_ok(plan.opaque@, *colors),
            acc == spec_opaque_pass(plan.opaque@.take(i as int), *colors, px as int, py as int, backdrop),
        decreases plan.opaque@.len() - i,
    {
        let cmd = plan.opaque[i];
        if cmd.rect.covers(px, py) {
            match colors.get(cmd.layer) {
                Some(c) => {
                    acc = *c;
                }
                None => {}
            }
        }
        proof {
            assert(plan.opaque@.take(i + 1).drop_last() =~= plan.opaque@.take(i as int));
            assert(plan.opaque@.take(i + 1).last() == plan.opaque@[i as int]);
        }
        i = i + 1;
    }
    proof {
        assert(plan.opaque@.take(plan.opaque@.len() as int) =~= plan.opaque@);
    }
    let ghost base = spec_opaque_pass(plan.opaque@, *colors, px as int, py as int, backdrop);
    proof {
        lemma_opaque_pass_premultiplied(plan.opaque@, *colors, px as int, py as int, backdrop);
    }
    let mut j: usize = 0;
    while j < plan.transparent.len()
        invariant
            0 <= j <= plan.transparent@.len(),
            spec_pass_inputs_ok(plan.transparent@, *colors),
            acc == spec_transparent_pass(plan.transparent@.take(j as int), *colors, px as int, py as int, base),
            acc.spec_premultiplied(),
        decreases plan.transparent@.len() - j,
    {
        let cmd = plan.transparent[j];
        if cmd.rect.covers(px, py) {
            match colors.get(cmd.layer) {
                Some(c) => {
                    acc = blend(*c, acc);
                }
                None => {}
            }
        }
        proof {
            assert(plan.transparent@.take(j + 1).drop_last() =~= plan.transparent@.take(j as int));
            assert(plan.transparent@.take(j + 1).last() == plan.transparent@[j as int]);
        }
        j = j + 1;
    }
    proof {
        assert(plan.transparent@.take(plan.transparent@.len() as int) =~= plan.transparent@);
    }
    acc
}

/// Reverses the row order of a tightly packed RGBA image: framebuffer
/// reads come back bottom-up, a screenshot is stored top-down.
pub fn flip_vertically(pixels: &Vec<u8>, width: usize, height: usize) -> (r: Vec<u8>)
    requires
        pixels@.len() == width * height * 4,
        width * height * 4 <= usize::MAX,
        width * 4 <= usize::MAX,
    ensures
        r@.len() == pixels@.len(),
        forall|y: int, k: int|
            0 <= y < height && 0 <= k < width * 4 ==> #[trigger] r@[y * (width * 4) + k]
                == pixels@[(height - 1 - y) * (width * 4) + k],
{
    let row = width * 4;
    proof {
        assert(width * height * 4 == height * (width * 4)) by (nonlinear_arith);
    }
    let mut r: Vec<u8> = Vec::new();
    let mut y: usize = 0;
    while y < height
        invariant
            0 <= y <= height,
            row == width * 4,
            pixels@.len() == height * row,
            height * row <= usize::MAX,
            r@.len() == y * row,
            forall|y0: int, k: int|
                0 <= y0 < y && 0 <= k < row ==> #[trigger] r@[y0 * row + k] == pixels@[(height - 1
                    - y0) * row + k],
        decreases height - y,
    {
        let src_row = height - 1 - y;
        proof {
            assert((height - 1 - y) * row + row <= height * row) by (nonlinear_arith)
                requires
                    0 <= y < height,
                    0 <= row,
            ;
            assert(y * row + row <= height * row) by (nonlinear_arith)
                requires
                    0 <= y < height,
                    0 <= row,
            ;
            assert((y + 1) * row == y * row + row) by (nonlinear_arith);
        }
        let mut k: usize = 0;
        while k < row
            invariant
                0 <= k <= row,
                row == width * 4,
                pixels@.len() == height * row,
                height * row <= usize::MAX,
                0 <= y < height,
                src_row == height - 1 - y,
                src_row * row + row <= height * row,
                y * row + row <= height * row,
                r@.len() == y * row + k,
                forall|y0: int, k0: int|
                    0 <= y0 < y && 0 <= k0 < row ==> #[trigger] r@[y0 * row + k0]
                        == pixels@[(height - 1 - y0) * row + k0],
                forall|k0: int| 0 <= k0 < k ==> #[trigger] r@[y * row + k0] == pixels@[src_row
                    * row + k0],
            decreases row - k,
        {
            r.push(pixels[src_row * row + k]);
            proof {
                assert forall|y0: int, k0: int|
                    0 <= y0 < y && 0 <= k0 < row implies #[trigger] r@[y0 * row + k0]
                    == pixels@[(height - 1 - y0) * row + k0] by {
                    assert(y0 * row + row <= y * row) by (nonlinear_arith)
                        requires
                            0 <= y0 < y,
                            0 <= row,
                    ;
                }
            }
            k = k + 1;
        }
        proof {
            assert forall|y0: int, k0: int|
                0 <= y0 < y + 1 && 0 <= k0 < row implies #[trigger] r@[y0 * row + k0]
                == pixels@[(height - 1 - y0) * row + k0] by {
                if y0 < y {
                    assert(y0 * row + row <= y * row) by (nonlinear_arith)
                        requires
                            0 <= y0 < y,
                            0 <= row,
                    ;
                }
            }
        }
        y = y + 1;
    }
    proof {
        assert(r@.len() == height * row) by (nonlinear_arith)
            requires
                r@.len() == y * row,
                y == height,
        ;
    }
    r
}

/// The opaque pass of premultiplied inputs leaves a premultiplied color.
pub proof fn lemma_opaque_pass_premultiplied(
    cmds: Seq<DrawCommand>,
    colors: LayerMap<Color>,
    px: int,
    py: int,
    backdrop: Color,
)
    requires
        spec_pass_inputs_ok(cmds, colors),
        backdrop.spec_premultiplied(),
    ensures
        spec_opaque_pass(cmds, colors, px, py, backdrop).spec_premultiplied(),
    decreases cmds.len(),
{
    if cmds.len() > 0 {
        assert(forall|i: int|
            0 <= i < cmds.drop_last().len() ==> #[trigger] cmds.drop_last()[i] == cmds[i]);
        lemma_opaque_pass_premultiplied(cmds.drop_last(), colors, px, py, backdrop);
    }
}

/// The opaque pass shows the last command that covers the point and has
/// cached content: later-inserted siblings win over earlier ones.
pub proof fn lemma_opaque_last_covering_wins(
    cmds: Seq<DrawCommand>,
    colors: LayerMap<Color>,
    px: int,
    py: int,
    backdrop: Color,
    i: int,
)
    requires
        0 <= i < cmds.len(),
        cmds[i].rect.spec_covers(px, py),
        colors.spec_get(cmds[i].layer) is Some,
        forall|j: int|
            i < j < cmds.len() ==> !((#[trigger] cmds[j]).rect.spec_covers(px, py)
                && colors.spec_get(cmds[j].layer) is Some),
    ensures
        spec_opaque_pass(cmds, colors, px, py, backdrop) == colors.spec_get(cmds[i].layer)->Some_0,
    decreases cmds.len(),
{
    if i == cmds.len() - 1 {
    } else {
        assert(forall|k: int|
            0 <= k < cmds.drop_last().len() ==> #[trigger] cmds.drop_last()[k] == cmds[k]);
        lemma_opaque_last_covering_wins(cmds.drop_last(), colors, px, py, backdrop, i);
    }
}

} // verus!
