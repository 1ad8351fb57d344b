use sideterm_sidebar::sidebar::SidebarEntry;
use sideterm_sidebar::sidebar_rows::{build_rows, style_for_row, ResolvedColors, SidebarItem, SidebarRow};

fn entries() -> Vec<SidebarEntry> {
    vec![
        SidebarEntry {
            name: "api".to_string(),
            tab_count: Some(3),
            subtitle_lines: vec!["\u{25b8} api".to_string(), "$ npm run dev".to_string()],
        },
        SidebarEntry {
            name: "docs".to_string(),
            tab_count: None,
            subtitle_lines: vec![],
        },
    ]
}

#[test]
fn builds_new_button_first() {
    let rows = build_rows("api", &entries());
    assert_eq!(rows[0].item, SidebarItem::NewButton);
    assert_eq!(rows[0].title, "+ New workspace");
    assert!(!rows[0].is_active);
    assert!(!rows[0].is_open);
}

#[test]
fn entry_rows_carry_badge_and_state() {
    let rows = build_rows("api", &entries());
    assert_eq!(rows[1].item, SidebarItem::Entry("api".to_string()));
    assert_eq!(rows[1].title, "api (3)");
    assert!(rows[1].is_active);
    assert!(rows[1].is_open);
    assert_eq!(
        rows[1].subtitle_lines,
        vec!["\u{25b8} api".to_string(), "$ npm run dev".to_string()]
    );

    assert_eq!(rows[2].title, "docs");
    assert!(!rows[2].is_active);
    assert!(!rows[2].is_open);
    assert_eq!(rows[2].subtitle_lines, Vec::<String>::new());
}

#[test]
fn badge_counts_in_decimal() {
    let rows = build_rows(
        "",
        &[SidebarEntry { name: "w".to_string(), tab_count: Some(1205), subtitle_lines: vec![] }],
    );
    assert_eq!(rows.len(), 2);
    assert_eq!(rows[1].title, "w (1205)");
    assert!(!rows[1].is_active);
}

type Rgba = (f32, f32, f32, f32);

fn test_colors() -> ResolvedColors<Rgba> {
    ResolvedColors {
        background: (0.0, 0.0, 0.0, 1.0),
        foreground: (0.9, 0.9, 0.9, 1.0),
        active_bg: (0.2, 0.4, 0.8, 1.0),
        active_fg: (1.0, 1.0, 1.0, 1.0),
        inactive_fg: (0.5, 0.5, 0.5, 1.0),
        subtitle_fg: (0.4, 0.4, 0.4, 1.0),
        hover_bg: (0.1, 0.1, 0.2, 1.0),
        hover_fg: (0.95, 0.95, 0.95, 1.0),
        active_indicator: (1.0, 1.0, 1.0, 1.0),
        menu_border: (0.3, 0.3, 0.3, 1.0),
    }
}

fn row(item: SidebarItem, is_active: bool, is_open: bool) -> SidebarRow {
    SidebarRow {
        item,
        title: "ws".to_string(),
        subtitle_lines: vec![],
        is_active,
        is_open,
    }
}

#[test]
fn style_for_active_row_uses_active_colors() {
    let style = style_for_row(&row(SidebarItem::Entry("a".into()), true, true), &test_colors());
    assert_eq!(style.bg, test_colors().active_bg);
    assert_eq!(style.fg, test_colors().active_fg);
}

#[test]
fn style_for_open_row_uses_background_and_foreground() {
    let style = style_for_row(&row(SidebarItem::Entry("a".into()), false, true), &test_colors());
    assert_eq!(style.bg, test_colors().background);
    assert_eq!(style.fg, test_colors().foreground);
}

#[test]
fn style_for_closed_row_uses_inactive_fg() {
    let style = style_for_row(&row(SidebarItem::Entry("a".into()), false, false), &test_colors());
    assert_eq!(style.bg, test_colors().background);
    assert_eq!(style.fg, test_colors().inactive_fg);
}

#[test]
fn style_for_new_button_uses_foreground() {
    let style = style_for_row(&row(SidebarItem::NewButton, false, false), &test_colors());
    assert_eq!(style.bg, test_colors().background);
    assert_eq!(style.fg, test_colors().foreground);
}

#[test]
fn style_always_carries_hover_colors() {
    let colors = test_colors();
    for item in [SidebarItem::NewButton, SidebarItem::Entry("a".into())] {
        for (is_active, is_open) in [(false, false), (true, true)] {
            let style = style_for_row(&row(item.clone(), is_active, is_open), &colors);
            assert_eq!(style.hover_bg, colors.hover_bg);
            assert_eq!(style.hover_fg, colors.hover_fg);
        }
    }
}

use sideterm_sidebar::sidebar_rows::{button_style, resolve_colors, ColorPair, ContrastShift, PaletteColors, SidebarColors};

fn palette() -> PaletteColors<Rgba> {
    PaletteColors {
        background: (0.0, 0.0, 0.0, 1.0),
        foreground: (0.8, 0.8, 0.8, 1.0),
        dim_foreground: (0.5, 0.5, 0.5, 1.0),
    }
}

fn shifted(c: Rgba, k: ContrastShift) -> Rgba {
    let amount = match k {
        ContrastShift::ActiveFill => 0.15,
        ContrastShift::Hover => 0.1,
        ContrastShift::MenuBorder => 0.3,
        ContrastShift::ButtonHover => 0.15,
    };
    (c.0 + amount, c.1 + amount, c.2 + amount, c.3)
}

#[test]
fn unconfigured_colors_derive_from_the_palette() {
    let r = resolve_colors(None, &palette(), shifted);
    assert_eq!(r.background, palette().background);
    assert_eq!(r.foreground, palette().foreground);
    assert_eq!(r.active_bg, (0.15, 0.15, 0.15, 1.0));
    assert_eq!(r.active_fg, palette().foreground);
    assert_eq!(r.inactive_fg, palette().dim_foreground);
    assert_eq!(r.subtitle_fg, palette().dim_foreground);
    assert_eq!(r.hover_bg, (0.1, 0.1, 0.1, 1.0));
    assert_eq!(r.hover_fg, palette().foreground);
    assert_eq!(r.active_indicator, palette().foreground);
    assert_eq!(r.menu_border, (0.3, 0.3, 0.3, 1.0));
}

#[test]
fn configured_colors_win() {
    let sc = SidebarColors {
        background: Some((0.2, 0.2, 0.2, 1.0)),
        foreground: Some((1.0, 1.0, 1.0, 1.0)),
        inactive_foreground: None,
        subtitle_foreground: Some((0.6, 0.6, 0.6, 1.0)),
        active: Some(ColorPair { bg_color: (0.0, 0.0, 1.0, 1.0), fg_color: (1.0, 1.0, 0.0, 1.0) }),
        hover: None,
        active_indicator: None,
        menu_border: Some((0.9, 0.0, 0.0, 1.0)),
    };
    let r = resolve_colors(Some(&sc), &palette(), shifted);
    assert_eq!(r.background, (0.2, 0.2, 0.2, 1.0));
    assert_eq!(r.active_bg, (0.0, 0.0, 1.0, 1.0));
    assert_eq!(r.active_fg, (1.0, 1.0, 0.0, 1.0));
    assert_eq!(r.active_indicator, (1.0, 1.0, 0.0, 1.0));
    assert_eq!(r.inactive_fg, palette().dim_foreground);
    assert_eq!(r.subtitle_fg, (0.6, 0.6, 0.6, 1.0));
    // hover derives from the configured background and foreground
    assert_eq!(r.hover_bg, shifted((0.2, 0.2, 0.2, 1.0), ContrastShift::Hover));
    assert_eq!(r.hover_fg, (1.0, 1.0, 1.0, 1.0));
    assert_eq!(r.menu_border, (0.9, 0.0, 0.0, 1.0));
}

#[test]
fn primary_button_uses_active_colors_and_shifted_hover() {
    let c = test_colors();
    let s = button_style(&c, true, shifted);
    assert_eq!(s.bg, c.active_bg);
    assert_eq!(s.fg, c.active_fg);
    assert_eq!(s.hover_bg, shifted(c.active_bg, ContrastShift::ButtonHover));
    assert_eq!(s.hover_fg, c.active_fg);
}

#[test]
fn secondary_button_uses_background_and_hover_colors() {
    let c = test_colors();
    let s = button_style(&c, false, shifted);
    assert_eq!(s.bg, c.background);
    assert_eq!(s.fg, c.foreground);
    assert_eq!(s.hover_bg, c.hover_bg);
    assert_eq!(s.hover_fg, c.hover_fg);
}

use sideterm_sidebar::sidebar_rows::SidebarState;

#[test]
fn state_holds_rows_and_resolved_colors() {
    let state = SidebarState::new("api", &entries(), None, &palette(), shifted);
    assert_eq!(state.rows, build_rows("api", &entries()));
    assert_eq!(state.colors, resolve_colors(None, &palette(), shifted));
    assert!(state.rows[1].is_active);
}

use sideterm_sidebar::sidebar_rows::{paint_sidebar, PaintStep};

#[test]
fn painting_builds_model_then_element_then_draws() {
    assert_eq!(paint_sidebar(false, false), PaintStep::BuildModel);
    assert_eq!(paint_sidebar(false, true), PaintStep::BuildModel);
    assert_eq!(paint_sidebar(true, false), PaintStep::BuildElement);
    assert_eq!(paint_sidebar(true, true), PaintStep::Draw);
}
