use heightmap::sculpt::layers::{LayerStack, LAYER_COLORS};

#[test]
fn box_ranges_partition_the_field() {
    let mut s = LayerStack::new(10, 8);
    s.grid_div = (2, 2);
    // Four boxes tile the field with no gap/overlap.
    assert_eq!(s.box_cell_range(10, 8, 0, 0), (0, 0, 5, 4));
    assert_eq!(s.box_cell_range(10, 8, 1, 0), (5, 0, 10, 4));
    assert_eq!(s.box_cell_range(10, 8, 0, 1), (0, 4, 5, 8));
    assert_eq!(s.box_cell_range(10, 8, 1, 1), (5, 4, 10, 8));
}

#[test]
fn paint_box_sets_only_its_cells() {
    let mut s = LayerStack::new(4, 4);
    s.grid_div = (2, 1);
    s.active = 0;
    s.paint_box(4, 4, 0, 0, true); // left half: cols 0..2, all rows
    let m = &s.layers[0].box_mask;
    for y in 0..4 {
        assert!(m[(y * 4) as usize] && m[(y * 4 + 1) as usize], "left cols set");
        assert!(!m[(y * 4 + 2) as usize] && !m[(y * 4 + 3) as usize], "right cols clear");
    }
}

#[test]
fn claim_top_layer_wins_contested_cells() {
    let mut s = LayerStack::new(4, 4);
    s.grid_div = (1, 1);
    s.active = 0;
    s.paint_box(4, 4, 0, 0, true); // Base selects the whole field
    s.add_layer(4, 4); // a top layer (index 1, now active)
    s.paint_box(4, 4, 0, 0, true); // also selects the whole field
    let top = s.layers[1].id;
    let claimed = s.claim(4, 4);
    assert!(claimed.iter().all(|c| *c == Some(top)), "the top layer wins every contested cell");

    // Hiding the top layer falls every cell through to Base.
    s.layers[1].visible = false;
    let base = s.layers[0].id;
    let claimed = s.claim(4, 4);
    assert!(claimed.iter().all(|c| *c == Some(base)), "a hidden top layer falls through to Base");
}

#[test]
fn unselected_cells_stay_unclaimed() {
    let mut s = LayerStack::new(4, 4);
    s.grid_div = (2, 1);
    s.active = 0;
    s.paint_box(4, 4, 0, 0, true); // only the left half is selected
    let claimed = s.claim(4, 4);
    let id = s.layers[0].id;
    for y in 0..4 {
        assert_eq!(claimed[(y * 4) as usize], Some(id), "left is claimed");
        assert_eq!(claimed[(y * 4 + 3) as usize], None, "right is unclaimed (exported by no part)");
    }
}

#[test]
fn added_layers_go_above_the_active_one() {
    let mut s = LayerStack::new(2, 2);
    s.add_layer(2, 2);
    s.select_layer(0);
    s.add_layer(2, 2);
    let names: Vec<&str> = s.layers.iter().map(|l| l.name.as_str()).collect();
    assert_eq!(names, vec!["Base", "Layer 2", "Layer 1"]);
    assert_eq!(s.active, 1);
    let ids: Vec<u32> = s.layers.iter().map(|l| l.id.0).collect();
    assert_eq!(ids, vec![0, 2, 1], "no two layers share an id");
    assert_eq!(s.layers[1].color, LAYER_COLORS[2]);
}

#[test]
fn a_click_toggles_the_box_under_it() {
    let mut s = LayerStack::new(4, 4);
    s.set_grid(2, 2);
    s.toggle_box_at(3, 0, 4, 4);
    assert!(s.box_full_in_active(4, 4, 1, 0));
    assert!(!s.box_full_in_active(4, 4, 0, 0));
    // A partly owned box fills up instead of clearing.
    s.layers[0].box_mask[2] = false;
    s.toggle_box_at(3, 1, 4, 4);
    assert!(s.box_full_in_active(4, 4, 1, 0));
    s.toggle_box_at(2, 1, 4, 4);
    assert!(s.layers[0].box_mask.iter().all(|&m| !m), "a full box clears");
    s.toggle_box_at(4, 0, 4, 4);
    assert!(s.layers[0].box_mask.iter().all(|&m| !m), "nothing happens outside the field");
}

/// A box is full after it was painted, and is not after it was cleared, whatever it was before.
#[test]
fn painting_a_box_decides_whether_it_is_full() {
    let mut s = LayerStack::new(5, 3);
    s.set_grid(2, 2);
    for owned in [true, true, false, false, true] {
        s.paint_box(5, 3, 1, 1, owned);
        assert_eq!(s.box_full_in_active(5, 3, 1, 1), owned);
    }
}
