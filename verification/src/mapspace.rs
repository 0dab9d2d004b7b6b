use vstd::prelude::*;

verus! {

/// An RGBA color.
#[derive(Clone, Copy, PartialEq, Eq, Structural, Debug)]
pub struct Color {
    pub r: u8,
    pub g: u8,
    pub b: u8,
    pub a: u8,
}

/// A bulk transformation over the colors of a batch.
#[derive(Clone, Copy, PartialEq, Eq, Structural, Debug)]
pub enum RewriteColor {
    NoOp,
    /// Repaint everything of the first color with the second.
    Change(Color, Color),
    /// Repaint everything with the one color.
    ChangeAll(Color),
}

impl RewriteColor {
    /// What this transformation does to one color.
    pub open spec fn spec_apply(self, c: Color) -> Color {
        match self {
            RewriteColor::NoOp => c,
            RewriteColor::Change(from, to) => if c == from {
                to
            } else {
                c
            },
            RewriteColor::ChangeAll(to) => to,
        }
    }

    pub fn apply(&self, c: Color) -> (r: Color)
        ensures
            r == self.spec_apply(c),
    {
        match self {
            RewriteColor::NoOp => c,
            RewriteColor::Change(from, to) => if c == *from {
                *to
            } else {
                c
            },
            RewriteColor::ChangeAll(to) => *to,
        }
    }
}

/// A batch of colored geometry not yet uploaded: each item is a color and a
/// handle to one polygon.
#[derive(Clone, Debug)]
pub struct GeomBatch {
    pub items: Vec<(Color, usize)>,
}

/// `s` with every color rewritten by `t`.
pub open spec fn spec_recolored(s: Seq<(Color, usize)>, t: RewriteColor) -> Seq<(Color, usize)> {
    Seq::new(s.len(), |i: int| (t.spec_apply(s[i].0), s[i].1))
}

impl GeomBatch {
    pub fn new() -> (r: GeomBatch)
        ensures
            r.items@.len() == 0,
    {
        GeomBatch { items: Vec::new() }
    }

    pub fn is_empty(&self) -> (r: bool)
        ensures
            r == (self.items@.len() == 0),
    {
        self.items.is_empty()
    }

    /// Add one colored polygon.
    pub fn push(&mut self, color: Color, polygon: usize)
        ensures
            final(self).items@ == old(self).items@.push((color, polygon)),
    {
        self.items.push((color, polygon));
    }

    /// Transform all colors in the batch.
    pub fn color(self, transformation: RewriteColor) -> (r: GeomBatch)
        ensures
            r.items@ == spec_recolored(self.items@, transformation),
    {
        let ghost items0 = self.items@;
        let mut items = self.items;
        let mut i: usize = 0;
        while i < items.len()
            invariant
                0 <= i <= items0.len(),
                items@.len() == items0.len(),
                forall|j: int| i <= j < items0.len() ==> #[trigger] items@[j] == items0[j],
                forall|j: int|
                    0 <= j < i ==> #[trigger] items@[j] == (
                        transformation.spec_apply(items0[j].0),
                        items0[j].1,
                    ),
            decreases items0.len() - i,
        {
            let (c, p) = items[i];
            items[i] = (transformation.apply(c), p);
            i = i + 1;
        }
        proof {
            assert(items@ =~= spec_recolored(items0, transformation));
        }
        GeomBatch { items }
    }
}

/// Geometry uploaded and ready to draw.
#[derive(Clone, Debug)]
pub struct Drawable {
    pub items: Vec<(Color, usize)>,
}

/// The context that can upload geometry.
#[derive(Clone, Copy, Debug)]
pub struct EventCtx {}

impl EventCtx {
    pub fn new() -> (r: EventCtx) {
        EventCtx {  }
    }

    /// Upload a batch; what comes back draws exactly the batch's items.
    pub fn upload(&self, batch: GeomBatch) -> (r: Drawable)
        ensures
            r.items@ == batch.items@,
    {
        Drawable { items: batch.items }
    }
}

impl Drawable {
    pub fn empty(ctx: &EventCtx) -> (r: Drawable)
        ensures
            r.items@.len() == 0,
    {
        ctx.upload(GeomBatch::new())
    }
}

/// Canvas settings that matter for zoom-dependent drawing, with zoom levels
/// in hundredths.
#[derive(Clone, Copy, PartialEq, Eq, Structural, Debug)]
pub struct CanvasSettings {
    pub min_zoom_for_detail: u64,
}

#[derive(Clone, Copy, PartialEq, Eq, Structural, Debug)]
pub struct Canvas {
    pub cam_zoom: u64,
    pub settings: CanvasSettings,
}

/// The drawing context: the canvas state, and everything drawn so far.
#[derive(Clone, Debug)]
pub struct GfxCtx {
    pub canvas: Canvas,
    pub drawn: Vec<(Color, usize)>,
}

impl GfxCtx {
    pub fn new(canvas: Canvas) -> (r: GfxCtx)
        ensures
            r.canvas == canvas,
            r.drawn@.len() == 0,
    {
        GfxCtx { canvas, drawn: Vec::new() }
    }

    /// Draw an uploaded batch again.
    pub fn redraw(&mut self, d: &Drawable)
        ensures
            final(self).canvas == old(self).canvas,
            final(self).drawn@ == old(self).drawn@ + d.items@,
    {
        let mut i: usize = 0;
        proof {
            assert(old(self).drawn@ + d.items@.subrange(0, 0) =~= old(self).drawn@);
        }
        while i < d.items.len()
            invariant
                0 <= i <= d.items@.len(),
                self.canvas == old(self).canvas,
                self.drawn@ == old(self).drawn@ + d.items@.subrange(0, i as int),
            decreases d.items@.len() - i,
        {
            self.drawn.push(d.items[i]);
            proof {
                assert(old(self).drawn@ + d.items@.subrange(0, i as int + 1) =~= (old(self).drawn@
                    + d.items@.subrange(0, i as int)).push(d.items@[i as int]));
            }
            i = i + 1;
        }
        proof {
            assert(d.items@.subrange(0, d.items@.len() as int) =~= d.items@);
            assert(old(self).drawn@ + d.items@.subrange(0, 0) =~= old(self).drawn@);
        }
    }
}

/// Draws one of two versions of something, based on whether the canvas is
/// zoomed in past a threshold.
#[derive(Clone, Debug)]
pub struct ToggleZoomed {
    // Some callers access directly for minimaps.
    pub unzoomed: Drawable,
    pub zoomed: Drawable,
    /// Draw the same thing whether zoomed or unzoomed.
    pub just_unzoomed: bool,
}

impl ToggleZoomed {
    pub fn new(ctx: &EventCtx, unzoomed: GeomBatch, zoomed: GeomBatch) -> (r: ToggleZoomed)
        ensures
            r.unzoomed.items@ == unzoomed.items@,
            r.zoomed.items@ == zoomed.items@,
            !r.spec_just_unzoomed(),
    {
        ToggleZoomed { unzoomed: ctx.upload(unzoomed), zoomed: ctx.upload(zoomed), just_unzoomed: false }
    }

    pub fn empty(ctx: &EventCtx) -> (r: ToggleZoomed)
        ensures
            r.unzoomed.items@.len() == 0,
            r.zoomed.items@.len() == 0,
            !r.spec_just_unzoomed(),
    {
        ToggleZoomed {
            unzoomed: Drawable::empty(ctx),
            zoomed: Drawable::empty(ctx),
            just_unzoomed: false,
        }
    }

    pub fn builder() -> (r: ToggleZoomedBuilder)
        ensures
            r.unzoomed.items@.len() == 0,
            r.zoomed.items@.len() == 0,
            !r.spec_draws_one_batch(),
    {
        ToggleZoomedBuilder {
            unzoomed: GeomBatch::new(),
            zoomed: GeomBatch::new(),
            just_unzoomed: false,
        }
    }

    pub open spec fn spec_just_unzoomed(self) -> bool {
        self.just_unzoomed
    }

    /// Which version `draw` shows for the given canvas.
    pub open spec fn spec_drawn_items(self, canvas: Canvas) -> Seq<(Color, usize)> {
        if self.spec_just_unzoomed() || canvas.cam_zoom < canvas.settings.min_zoom_for_detail {
            self.unzoomed.items@
        } else {
            self.zoomed.items@
        }
    }

    pub fn draw(&self, g: &mut GfxCtx)
        ensures
            final(g).canvas == old(g).canvas,
            final(g).drawn@ == old(g).drawn@ + self.spec_drawn_items(old(g).canvas),
    {
        if self.just_unzoomed || g.canvas.cam_zoom < g.canvas.settings.min_zoom_for_detail {
            g.redraw(&self.unzoomed);
        } else {
            g.redraw(&self.zoomed);
        }
    }
}

#[derive(Clone, Debug)]
pub struct ToggleZoomedBuilder {
    pub unzoomed: GeomBatch,
    pub zoomed: GeomBatch,
    pub just_unzoomed: bool,
}

impl ToggleZoomedBuilder {
    pub open spec fn spec_draws_one_batch(self) -> bool {
        self.just_unzoomed
    }

    /// A builder for one batch that appears the same whether zoomed or
    /// unzoomed.
    pub fn draws_one_batch(unzoomed: GeomBatch) -> (r: Self)
        ensures
            r.unzoomed.items@ == unzoomed.items@,
            r.zoomed.items@.len() == 0,
            r.spec_draws_one_batch(),
    {
        ToggleZoomedBuilder { unzoomed, zoomed: GeomBatch::new(), just_unzoomed: true }
    }

    /// Transforms all colors in both batches.
    pub fn color(self, transformation: RewriteColor) -> (r: Self)
        ensures
            r.unzoomed.items@ == spec_recolored(self.unzoomed.items@, transformation),
            r.zoomed.items@ == spec_recolored(self.zoomed.items@, transformation),
            r.spec_draws_one_batch() == self.spec_draws_one_batch(),
    {
        let just_unzoomed = self.just_unzoomed;
        ToggleZoomedBuilder {
            unzoomed: self.unzoomed.color(transformation),
            zoomed: self.zoomed.color(transformation),
            just_unzoomed,
        }
    }

    /// A builder that draws one batch may not have put anything in the
    /// zoomed half.
    pub fn build(self, ctx: &EventCtx) -> (r: ToggleZoomed)
        requires
            self.spec_draws_one_batch() ==> self.zoomed.items@.len() == 0,
        ensures
            r.unzoomed.items@ == self.unzoomed.items@,
            r.zoomed.items@ == self.zoomed.items@,
            r.spec_just_unzoomed() == self.spec_draws_one_batch(),
    {
        let just_unzoomed = self.just_unzoomed;
        ToggleZoomed {
            unzoomed: ctx.upload(self.unzoomed),
            zoomed: ctx.upload(self.zoomed),
            just_unzoomed,
        }
    }
}

/// A batch on its own becomes a builder that draws the same thing whether
/// zoomed or unzoomed. Callers that need the fields pinned use
/// `draws_one_batch` instead of the conversion.
impl From<GeomBatch> for ToggleZoomedBuilder {
    fn from(unzoomed: GeomBatch) -> (r: Self) {
        ToggleZoomedBuilder::draws_one_batch(unzoomed)
    }
}

impl vstd::std_specs::convert::FromSpecImpl<GeomBatch> for ToggleZoomedBuilder {
    open spec fn obeys_from_spec() -> bool {
        false
    }

    open spec fn from_spec(unzoomed: GeomBatch) -> Self {
        arbitrary()
    }
}

} // verus!
