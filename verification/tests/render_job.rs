use chariot_client::renderer::render_job::{
    render_item_framebuffer_name, render_item_pass_name, try_unpack_graphics_item, RenderGraphBuilder,
    RenderItem, RenderJob,
};

fn draw(pass: &str, fb: &str, n: usize) -> RenderItem {
    RenderItem::Graphics { pass_name: pass.to_string(), framebuffer_name: fb.to_string(), draw: n }
}

fn draw_number(item: &RenderItem) -> usize {
    match item {
        RenderItem::Graphics { draw, .. } => *draw,
        RenderItem::Compute { dispatch, .. } => *dispatch,
        RenderItem::Custom { callback, .. } => *callback,
    }
}

#[test]
fn item_accessors() {
    let g = draw("geometry", "gbuf", 7);
    assert_eq!(render_item_pass_name(&g), "geometry");
    assert_eq!(render_item_framebuffer_name(&g).map(|s| s.as_str()), Some("gbuf"));
    let (p, f, d) = try_unpack_graphics_item(&g).unwrap();
    assert_eq!((p.as_str(), f.as_str(), d), ("geometry", "gbuf", 7));
    let c = RenderItem::Compute { pass_name: "probe".to_string(), dispatch: 1 };
    assert_eq!(render_item_pass_name(&c), "probe");
    assert!(render_item_framebuffer_name(&c).is_none());
    assert!(try_unpack_graphics_item(&c).is_none());
}

#[test]
fn builder_ids_count_up() {
    let mut b = RenderGraphBuilder::new();
    assert_eq!(b.add(draw("a", "x", 0), &[]), 0);
    assert_eq!(b.add(draw("b", "x", 1), &[]), 1);
    b.add_root(draw("a", "x", 2));
    let _g = b.build();
    assert_eq!(b.add(draw("c", "x", 3), &[]), 0);
}

#[test]
fn merge_groups_items_by_pass() {
    let mut job = RenderJob::new();
    let mut b = RenderGraphBuilder::new();
    b.add_root(draw("geometry", "g", 0));
    b.add_root(draw("shade", "s", 1));
    b.add_root(draw("geometry", "g", 2));
    job.merge_graph(b.build());
    let mut b2 = RenderGraphBuilder::new();
    b2.add_root(draw("post", "p", 3));
    b2.add_root(draw("shade", "s", 4));
    job.merge_graph(b2.build());

    let mut it = job.iter_bfs();
    let (name, items) = it.next().unwrap();
    assert_eq!(name, "geometry");
    assert_eq!(items.iter().map(draw_number).collect::<Vec<_>>(), vec![2, 0]);
    let (name, items) = it.next().unwrap();
    assert_eq!(name, "shade");
    assert_eq!(items.iter().map(draw_number).collect::<Vec<_>>(), vec![1, 4]);
    let (name, items) = it.next().unwrap();
    assert_eq!(name, "post");
    assert_eq!(items.iter().map(draw_number).collect::<Vec<_>>(), vec![3]);
    assert!(it.next().is_none());
    assert!(it.next().is_none());
}

#[test]
fn merge_adds_every_item_once() {
    let mut job = RenderJob::new();
    let mut b = RenderGraphBuilder::new();
    b.add_root(draw("a", "x", 0));
    b.add_root(draw("b", "x", 1));
    b.add_root(draw("a", "x", 2));
    job.merge_graph(b.build());
    let mut b2 = RenderGraphBuilder::new();
    b2.add_root(draw("b", "x", 3));
    b2.add_root(draw("c", "x", 4));
    job.merge_graph(b2.build());
    let mut total = 0;
    let mut it = job.iter_bfs();
    while let Some((_, items)) = it.next() {
        total += items.len();
    }
    assert_eq!(total, 5);
}
