use scenario::mapspace::{
    Canvas, CanvasSettings, Color, EventCtx, GeomBatch, GfxCtx, RewriteColor, ToggleZoomed,
    ToggleZoomedBuilder,
};

fn color(r: u8) -> Color {
    Color { r, g: 0, b: 0, a: 255 }
}

fn canvas(cam_zoom: u64) -> Canvas {
    Canvas { cam_zoom, settings: CanvasSettings { min_zoom_for_detail: 400 } }
}

#[test]
fn zoomed_out_draws_the_unzoomed_version() {
    let ctx = EventCtx::new();
    let mut unzoomed = GeomBatch::new();
    unzoomed.push(color(1), 100);
    let mut zoomed = GeomBatch::new();
    zoomed.push(color(2), 200);
    let tz = ToggleZoomed::new(&ctx, unzoomed, zoomed);

    let mut g = GfxCtx::new(canvas(100));
    tz.draw(&mut g);
    assert_eq!(g.drawn, vec![(color(1), 100)]);
}

#[test]
fn zoomed_in_draws_the_zoomed_version() {
    let ctx = EventCtx::new();
    let mut unzoomed = GeomBatch::new();
    unzoomed.push(color(1), 100);
    let mut zoomed = GeomBatch::new();
    zoomed.push(color(2), 200);
    let tz = ToggleZoomed::new(&ctx, unzoomed, zoomed);

    let mut g = GfxCtx::new(canvas(900));
    tz.draw(&mut g);
    assert_eq!(g.drawn, vec![(color(2), 200)]);
}

#[test]
fn empty_draws_nothing_at_any_zoom() {
    let ctx = EventCtx::new();
    let tz = ToggleZoomed::empty(&ctx);
    let mut g = GfxCtx::new(canvas(900));
    tz.draw(&mut g);
    tz.draw(&mut g);
    assert!(g.drawn.is_empty());
}

#[test]
fn builder_color_rewrites_both_batches() {
    let ctx = EventCtx::new();
    let mut b = ToggleZoomed::builder();
    b.unzoomed.push(color(1), 1);
    b.unzoomed.push(color(9), 2);
    b.zoomed.push(color(1), 3);
    let b = b.color(RewriteColor::Change(color(1), color(5)));
    let tz = b.build(&ctx);
    assert_eq!(tz.unzoomed.items, vec![(color(5), 1), (color(9), 2)]);
    assert_eq!(tz.zoomed.items, vec![(color(5), 3)]);
}

#[test]
fn change_all_repaints_everything() {
    let batch = GeomBatch { items: vec![(color(1), 1), (color(2), 2)] };
    let repainted = batch.color(RewriteColor::ChangeAll(color(7)));
    assert_eq!(repainted.items, vec![(color(7), 1), (color(7), 2)]);
}

#[test]
fn one_batch_builder_draws_the_same_at_any_zoom() {
    let ctx = EventCtx::new();
    let mut batch = GeomBatch::new();
    batch.push(color(3), 42);
    let tz = ToggleZoomedBuilder::from(batch).build(&ctx);

    let mut far = GfxCtx::new(canvas(100));
    tz.draw(&mut far);
    let mut near = GfxCtx::new(canvas(900));
    tz.draw(&mut near);
    assert_eq!(far.drawn, near.drawn);
    assert_eq!(far.drawn, vec![(color(3), 42)]);
}
