use minimap_renderer::feeds::{
    chat_box_layout, chat_entry_lines, chat_header_widths, feed_row_tops, feed_window_start, inline_chat_rows, inline_kill_rows,
    kill_feed_rows, kill_line_layout, kill_name_max_width, KillLineParts,
};
use minimap_renderer::layout::{
    canvas_geometry, config_label_candidates, place_label, rects_overlap_exec, result_overlay_layout, LabelPlacer,
    RenderOptions, SidePanelLayout,
};
use minimap_renderer::panel_layout::{
    buff_row, consumable_icon_row, ribbon_rows, stats_column_layout, stats_consumable_slots, stats_metric_rows,
    teammate_row_height, BuffSlot,
};

#[test]
fn side_panel_layout_from_options() {
    assert_eq!(SidePanelLayout::from_options(&RenderOptions { show_stats_panel: true }), SidePanelLayout::StatsPanel);
    assert_eq!(SidePanelLayout::from_options(&RenderOptions { show_stats_panel: false }), SidePanelLayout::MinimapOnly);
}

#[test]
fn canvas_geometry_widths() {
    let g = canvas_geometry(SidePanelLayout::MinimapOnly, false, false, None);
    assert_eq!((g.canvas_width, g.canvas_height, g.map_width, g.map_x_offset, g.hud_width), (1200, 1200, 1200, 0, 1200));
    assert_eq!(canvas_geometry(SidePanelLayout::StatsPanel, false, false, None).canvas_width, 1920);
    assert_eq!(canvas_geometry(SidePanelLayout::StatsPanel, false, true, None).canvas_width, 2128);
    assert_eq!(canvas_geometry(SidePanelLayout::StatsPanel, true, false, None).canvas_width, 1200 + 1296);
    assert_eq!(canvas_geometry(SidePanelLayout::StatsPanel, true, true, None).canvas_width, 1200 + 1670);
    assert_eq!(canvas_geometry(SidePanelLayout::StatsPanel, true, true, Some(333)).canvas_width, 1534);
    assert_eq!(canvas_geometry(SidePanelLayout::StatsPanel, false, false, Some(500)).canvas_width, 1700);
    assert_eq!(canvas_geometry(SidePanelLayout::MinimapOnly, true, true, Some(333)).canvas_width, 1200);
}

#[test]
fn large_panel_width_matches_float_rounding() {
    for base in [720u32, 928] {
        let expected = (base as f32 * 1.8f32).round() as u32;
        let expected = if expected % 2 != 0 { expected + 1 } else { expected };
        let aspect = base == 928;
        assert_eq!(canvas_geometry(SidePanelLayout::StatsPanel, true, aspect, None).canvas_width, 1200 + expected);
    }
}

#[test]
fn overlay_layout_centres_block() {
    let p = result_overlay_layout(1200, 1200, 400, 150, Some(38), true);
    assert_eq!((p.x, p.main_y, p.sub_y), (400, 548, 502));
    let p = result_overlay_layout(1200, 1200, 400, 150, Some(38), false);
    assert_eq!((p.x, p.main_y, p.sub_y), (400, 502, 660));
    let p = result_overlay_layout(1200, 1200, 400, 150, None, false);
    assert_eq!((p.x, p.main_y, p.sub_y), (400, 525, 675));
    let p = result_overlay_layout(100, 100, 301, 150, None, true);
    assert_eq!((p.x, p.main_y), (-100, -25));
}

#[test]
fn kill_line_parts_positions() {
    let parts = KillLineParts {
        killer_name_w: 50,
        killer_ship_w: 40,
        has_killer_icon: true,
        has_cause_icon: true,
        victim_name_w: 60,
        victim_ship_w: 0,
        has_victim_icon: false,
    };
    let l = kill_line_layout(parts, 16, 10);
    assert_eq!(l.killer_name_x, 14);
    assert_eq!(l.killer_icon_x, Some(66));
    assert_eq!(l.killer_ship_x, Some(84));
    assert_eq!(l.cause_x, 128);
    assert_eq!(l.victim_name_x, 148);
    assert_eq!(l.victim_icon_x, None);
    assert_eq!(l.victim_ship_x, None);
    assert_eq!(l.background_w, 202);
}

#[test]
fn kill_line_without_icons() {
    let parts = KillLineParts {
        killer_name_w: 30,
        killer_ship_w: 20,
        has_killer_icon: false,
        has_cause_icon: false,
        victim_name_w: 25,
        victim_ship_w: 15,
        has_victim_icon: true,
    };
    let l = kill_line_layout(parts, 16, 0);
    assert_eq!(l.killer_ship_x, Some(4 + 30 + 2));
    assert_eq!(l.cause_x, 4 + 30 + 2 + 20 + 4);
    assert_eq!(l.victim_name_x, 4 + 30 + 2 + 20 + 8);
    assert_eq!(l.victim_icon_x, Some(4 + 30 + 2 + 20 + 8 + 25 + 2));
    assert_eq!(l.victim_ship_x, Some(4 + 30 + 2 + 20 + 8 + 25 + 2 + 16 + 2));
    assert_eq!(l.background_w, 30 + 2 + 20 + 8 + 25 + 20 + 15 + 8);
}

#[test]
fn kill_line_background_covers_all_parts() {
    let parts = KillLineParts {
        killer_name_w: 41,
        killer_ship_w: 33,
        has_killer_icon: true,
        has_cause_icon: true,
        victim_name_w: 27,
        victim_ship_w: 52,
        has_victim_icon: true,
    };
    let start = 700;
    let l = kill_line_layout(parts, 16, start);
    let right = start + l.background_w - 4;
    assert_eq!(l.killer_name_x, start + 4);
    assert!(l.killer_name_x + 41 <= l.killer_icon_x.unwrap());
    assert!(l.killer_icon_x.unwrap() + 16 <= l.killer_ship_x.unwrap());
    assert!(l.killer_ship_x.unwrap() + 33 <= l.cause_x);
    assert!(l.cause_x + 16 <= l.victim_name_x);
    assert!(l.victim_name_x + 27 <= l.victim_icon_x.unwrap());
    assert!(l.victim_icon_x.unwrap() + 16 <= l.victim_ship_x.unwrap());
    assert_eq!(l.victim_ship_x.unwrap() + 52, right);
}

#[test]
fn feed_window_keeps_newest_that_fit() {
    let h = vec![28, 28, 28, 28, 28];
    assert_eq!(feed_window_start(&h, 268), 0);
    assert_eq!(feed_window_start(&h, 100), 2);
    assert_eq!(feed_window_start(&h, 27), 5);
    assert_eq!(feed_window_start(&h, -1), 5);
    assert_eq!(feed_window_start(&vec![], 10), 0);
    assert_eq!(feed_window_start(&vec![50, 10, 10], 30), 1);
}

#[test]
fn chat_box_stacks_entries() {
    let l = chat_box_layout(&vec![3, 2], 64, 0);
    assert_eq!(l.height, 88);
    assert_eq!(l.box_x, 0);
    assert_eq!(l.box_y, 620);
    assert_eq!(l.entry_tops, vec![626, 674]);
    let one = chat_box_layout(&vec![1], 64, 112);
    assert_eq!(one.height, 26);
    assert_eq!(one.box_x, 112);
    assert_eq!(one.box_y, 664 - 13);
}

#[test]
fn label_placement_avoids_overlap() {
    let candidates = [
        [5, 5, 10, 10],
        [20, 0, 10, 10],
        [40, 0, 10, 10],
        [60, 0, 10, 10],
        [80, 0, 10, 10],
        [100, 0, 10, 10],
        [120, 0, 10, 10],
        [140, 0, 10, 10],
    ];
    let mut placed: Vec<[i32; 4]> = Vec::new();
    assert_eq!(place_label(&mut placed, &candidates), [5, 5, 10, 10]);
    assert_eq!(place_label(&mut placed, &candidates), [20, 0, 10, 10]);
    assert_eq!(placed, vec![[5, 5, 10, 10], [20, 0, 10, 10]]);
    let all_same = [[0, 0, 10, 10]; 8];
    let mut crowded = vec![[0, 0, 10, 10]];
    assert_eq!(place_label(&mut crowded, &all_same), [0, 0, 10, 10]);
    assert_eq!(crowded.len(), 2);
}

#[test]
fn rect_overlap_edges() {
    assert!(rects_overlap_exec(&[0, 0, 10, 10], &[9, 9, 10, 10]));
    assert!(!rects_overlap_exec(&[0, 0, 10, 10], &[10, 0, 10, 10]));
    assert!(!rects_overlap_exec(&[0, 0, 10, 10], &[0, 10, 10, 10]));
}

#[test]
fn kill_name_budget() {
    assert_eq!(kill_name_max_width(300, 20, 2, true, true, true), 118);
    assert_eq!(kill_name_max_width(50, 20, 2, true, true, true), 40);
    assert_eq!(kill_name_max_width(300, 20, 2, false, false, false), 150);
}

#[test]
fn chat_header_drops_ship_name_when_tight() {
    assert_eq!(chat_header_widths(300, 40, 18, 80, 2), (156, 80));
    assert_eq!(chat_header_widths(150, 40, 18, 80, 2), (88, 0));
    assert_eq!(chat_header_widths(50, 40, 18, 80, 2), (20, 0));
}

#[test]
fn stats_column_positions() {
    let c = stats_column_layout(1200, 300, 720, 400, false, true, true);
    assert_eq!(c.padding, 8);
    assert_eq!(c.left_w, 410);
    assert_eq!(c.inner_x, 1208);
    assert_eq!(c.inner_w, 394);
    assert_eq!(c.right_center_x, 1765);
    assert_eq!(c.start_y, 344);
    assert_eq!(c.ship_label_y, 366);
    assert_eq!(c.emblem_y, 348);
    assert_eq!(c.emblem_size, 72);
    assert_eq!(c.silhouette_y, 402);
    assert_eq!(c.silhouette_h, 90);
    assert_eq!(c.hp_text_y, 502);
    assert_eq!(c.consumables_y, 536);
    assert_eq!(c.consumables_h, 32);
    let rows = stats_metric_rows(&c, false, 3);
    assert_eq!(rows, vec![(436, 450), (485, 499), (534, 548)]);
    let (size, xs) = stats_consumable_slots(&c, false, 4);
    assert_eq!(size, 36);
    assert_eq!(xs, vec![1324, 1366, 1408, 1450]);
}

#[test]
fn stats_column_large_elements() {
    let c = stats_column_layout(0, 0, 1296, 720, true, false, true);
    assert_eq!(c.padding, 14);
    assert_eq!(c.emblem_size, 130);
    assert_eq!(c.silhouette_h, 162);
    assert_eq!(c.consumables_h, 58);
    assert_eq!(c.ship_label_y, c.start_y);
    let block = 43 + 22 + 162 + 18 + 36 + 25 + 58;
    assert_eq!(c.start_y, (720 - block) / 4);
}

#[test]
fn ribbon_rows_fill_to_capacity() {
    assert_eq!(ribbon_rows(7, 90, 200), vec![2, 2, 2, 1]);
    assert_eq!(ribbon_rows(3, 90, 50), vec![1, 1, 1]);
    assert_eq!(ribbon_rows(0, 90, 200), Vec::<usize>::new());
    assert_eq!(ribbon_rows(4, 90, 360), vec![4]);
    assert_eq!(ribbon_rows(5, 90, -16), vec![1, 1, 1, 1, 1]);
}

#[test]
fn ribbon_rows_hold_every_cell() {
    for count in 0..40usize {
        let rows = ribbon_rows(count, 64, 300);
        assert_eq!(rows.iter().sum::<usize>(), count);
        assert!(rows.iter().all(|&r| (1..=4).contains(&r)));
    }
}

#[test]
fn buff_rows_both_directions() {
    let widths = vec![None, Some(10), None];
    let right = buff_row(4, &widths, true);
    assert_eq!(
        right,
        vec![
            BuffSlot { icon_center_x: 12, label_x: None },
            BuffSlot { icon_center_x: 30, label_x: Some(38) },
            BuffSlot { icon_center_x: 58, label_x: None },
        ]
    );
    let left = buff_row(1196, &widths, false);
    assert_eq!(
        left,
        vec![
            BuffSlot { icon_center_x: 1188, label_x: None },
            BuffSlot { icon_center_x: 1160, label_x: Some(1168) },
            BuffSlot { icon_center_x: 1142, label_x: None },
        ]
    );
}

#[test]
fn teammate_rows_clamped() {
    assert_eq!(teammate_row_height(400, 8), 43);
    assert_eq!(teammate_row_height(400, 2), 48);
    assert_eq!(teammate_row_height(100, 12), 24);
    assert_eq!(teammate_row_height(400, 0), 32);
    assert_eq!(teammate_row_height(10, 1), 24);
}

#[test]
fn consumable_icons_centred_under_ship() {
    assert_eq!(consumable_icon_row(100, 50, 3, true), (vec![71, 100, 129], 78));
    assert_eq!(consumable_icon_row(100, 50, 1, false), (vec![100], 76));
    assert_eq!(consumable_icon_row(100, 50, 0, false), (vec![], 76));
}

#[test]
fn overlay_without_subtitle_ignores_side() {
    let above = result_overlay_layout(1200, 1200, 300, 100, None, true);
    let below = result_overlay_layout(1200, 1200, 300, 100, None, false);
    assert_eq!((above.x, above.main_y), (below.x, below.main_y));
    assert_eq!((below.x, below.main_y), (450, 550));
    // Sizes are read as i32, as the drawing code reads them: u32::MAX is -1.
    let wrapped = result_overlay_layout(u32::MAX, 1200, 0, 100, None, false);
    assert_eq!((wrapped.x, wrapped.main_y), (0, 550));
}

#[test]
fn kill_feed_longer_than_five_gets_first_five_rows() {
    for count in 5..40 {
        assert_eq!(kill_feed_rows(count, 20, 16), kill_feed_rows(5, 20, 16));
    }
}

#[test]
fn chat_entry_line_counts() {
    assert_eq!(chat_entry_lines(false, 0), 1);
    assert_eq!(chat_entry_lines(true, 0), 2);
    assert_eq!(chat_entry_lines(true, 3), 5);
}

#[test]
fn config_label_candidates_around_circle() {
    let c = config_label_candidates(100, 200, 23, 16, 40, 10);
    assert_eq!(c[0], [80, 167, 40, 10]); // top: centred, above
    assert_eq!(c[1], [116, 174, 40, 10]); // top-right
    assert_eq!(c[2], [123, 195, 40, 10]); // right
    assert_eq!(c[3], [116, 216, 40, 10]); // bottom-right
    assert_eq!(c[4], [80, 223, 40, 10]); // bottom
    assert_eq!(c[5], [44, 216, 40, 10]); // bottom-left
    assert_eq!(c[6], [37, 195, 40, 10]); // left
    assert_eq!(c[7], [44, 174, 40, 10]); // top-left
}

#[test]
fn label_placer_frame_lifecycle() {
    let mut labels = LabelPlacer::new();
    assert!(labels.placed().is_empty());
    let first = labels.place_config_label(100, 200, 23, 16, 40, 10);
    assert_eq!(first, [80, 167, 40, 10]);
    // Same circle again: the top and top-right spots overlap the first
    // label, so the right one is used.
    let second = labels.place_config_label(100, 200, 23, 16, 40, 10);
    assert_eq!(second, [123, 195, 40, 10]);
    assert_eq!(labels.placed(), &[first, second]);
    labels.begin_frame();
    assert!(labels.placed().is_empty());
    assert_eq!(labels.place_config_label(100, 200, 23, 16, 40, 10), first);
}

#[test]
fn kill_feed_shows_five_newest_rows() {
    assert_eq!(kill_feed_rows(2, 15, 16), vec![(0, 0), (20, 20)]);
    let rows = kill_feed_rows(9, 20, 16);
    assert_eq!(rows.len(), 5);
    assert_eq!(rows[4], (80, 82));
    assert_eq!(kill_feed_rows(0, 20, 16), Vec::new());
}

#[test]
fn inline_feed_rows_fit_the_box() {
    // 10 px padding, 30 px rows: 100 px box holds rows at 10, 40 (ending 70), 70 (ending 100).
    assert_eq!(inline_kill_rows(0, 100, 10), vec![10, 40, 70]);
    assert_eq!(inline_kill_rows(50, 100, 2), vec![60, 90]);
    assert_eq!(inline_kill_rows(0, 39, 4), Vec::<i32>::new());
    // Chat blocks: 62 px apart, 48 px needed.
    assert_eq!(inline_chat_rows(0, 130, 5), vec![10, 72]);
    assert_eq!(inline_chat_rows(0, 119, 5), vec![10]);
    assert_eq!(feed_row_tops(5, 10, 0, 5, 3), vec![5]);
}
