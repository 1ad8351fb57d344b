//! The sidebar's display rows and the colors each row is painted in.

use crate::sidebar::SidebarEntry;
use crate::text::{clone_strings, decimal, str_eq, usize_decimal, views};
use vstd::prelude::*;
use vstd::string::*;

verus! {

/// What a row stands for.
#[derive(Clone, Debug, PartialEq, Eq)]
pub enum SidebarItem {
    /// The strip around the rows, hit where no row is.
    Strip,
    /// A workspace, by name.
    Entry(String),
    /// The "+ New workspace" button.
    NewButton,
}

/// One row of the sidebar.
#[derive(Clone, Debug, PartialEq, Eq)]
pub struct SidebarRow {
    pub item: SidebarItem,
    /// Title text including the " (n)" tab-count badge; no leading
    /// padding (paint adds it).
    pub title: String,
    /// One line per configured default (directory / command /
    /// profile), each with a leading marker. Painted in the smaller
    /// subtitle font under the title.
    pub subtitle_lines: Vec<String>,
    pub is_active: bool,
    pub is_open: bool,
}

/// Title of a workspace row: the name, and for a live workspace its tab
/// count in parentheses.
pub open spec fn row_title(name: Seq<char>, tab_count: Option<usize>) -> Seq<char> {
    match tab_count {
        Some(n) => name + seq![' ', '('] + decimal(n as nat) + seq![')'],
        None => name,
    }
}

/// `row` is the row of workspace entry `e` while `active` is the active
/// workspace.
pub open spec fn row_of_entry(row: SidebarRow, e: SidebarEntry, active: Seq<char>) -> bool {
    &&& row.item matches SidebarItem::Entry(n) && n@ == e.name@
    &&& row.title@ == row_title(e.name@, e.tab_count)
    &&& views(row.subtitle_lines@) == views(e.subtitle_lines@)
    &&& row.is_active == (e.name@ == active)
    &&& row.is_open == (e.tab_count is Some)
}

/// `rows` are the display rows of `entries` while `active` is the
/// active workspace: the "+ New workspace" button first, then one row
/// per entry in order.
pub open spec fn lists_entries(rows: Seq<SidebarRow>, active: Seq<char>, entries: Seq<SidebarEntry>) -> bool {
    &&& rows.len() == entries.len() + 1
    &&& rows[0].item == SidebarItem::NewButton
    &&& rows[0].title@ == "+ New workspace"@
    &&& rows[0].subtitle_lines@.len() == 0
    &&& !rows[0].is_active
    &&& !rows[0].is_open
    &&& forall|i: int|
        0 <= i < entries.len() ==> row_of_entry(#[trigger] rows[i + 1], entries[i], active)
}

/// The first row is the "+ New workspace" button, neither active nor
/// open, without subtitle; then, for each entry in order, a row for
/// that workspace that carries the entry's subtitle lines unchanged, is
/// open exactly when the workspace is live, is active exactly when it
/// is the active workspace, and is titled with the name, followed by
/// the tab count in parentheses when live.
pub proof fn lemma_rows_follow_entries(rows: Seq<SidebarRow>, active: Seq<char>, entries: Seq<SidebarEntry>)
    requires
        lists_entries(rows, active, entries),
    ensures
        rows.len() == entries.len() + 1,
        rows[0].item == SidebarItem::NewButton,
        !rows[0].is_active && !rows[0].is_open && rows[0].subtitle_lines@.len() == 0,
        forall|i: int|
            #![trigger rows[i + 1]]
            0 <= i < entries.len() ==> {
                &&& rows[i + 1].item is Entry
                &&& rows[i + 1].item->Entry_0@ == entries[i].name@
                &&& views(rows[i + 1].subtitle_lines@) == views(entries[i].subtitle_lines@)
                &&& rows[i + 1].is_open == (entries[i].tab_count is Some)
                &&& rows[i + 1].is_active == (entries[i].name@ == active)
                &&& entries[i].tab_count is None ==> rows[i + 1].title@ == entries[i].name@
                &&& entries[i].tab_count is Some ==> rows[i + 1].title@ == entries[i].name@ + seq![
                    ' ',
                    '(',
                ] + decimal(entries[i].tab_count.unwrap() as nat) + seq![')']
            },
{
    assert forall|i: int| 0 <= i < entries.len() implies {
        &&& rows[i + 1].item is Entry
        &&& rows[i + 1].item->Entry_0@ == entries[i].name@
        &&& views(rows[i + 1].subtitle_lines@) == views(entries[i].subtitle_lines@)
        &&& rows[i + 1].is_open == (entries[i].tab_count is Some)
        &&& rows[i + 1].is_active == (entries[i].name@ == active)
        &&& entries[i].tab_count is None ==> rows[i + 1].title@ == entries[i].name@
        &&& entries[i].tab_count is Some ==> rows[i + 1].title@ == entries[i].name@ + seq![
            ' ',
            '(',
        ] + decimal(entries[i].tab_count.unwrap() as nat) + seq![')']
    } by {
        assert(row_of_entry(rows[i + 1], entries[i], active));
    }
}

/// Build the display rows from mux entries: the "+ New workspace"
/// button first, then one row per entry in order.
pub fn build_rows(active_workspace: &str, entries: &[SidebarEntry]) -> (r: Vec<SidebarRow>)
    ensures
        lists_entries(r@, active_workspace@, entries@),
{
    let mut rows: Vec<SidebarRow> = Vec::new();
    rows.push(
        SidebarRow {
            item: SidebarItem::NewButton,
            title: String::from_str("+ New workspace"),
            subtitle_lines: Vec::new(),
            is_active: false,
            is_open: false,
        },
    );
    let mut i: usize = 0;
    while i < entries.len()
        invariant
            i <= entries@.len(),
            rows@.len() == i + 1,
            rows@[0].item == SidebarItem::NewButton,
            rows@[0].title@ == "+ New workspace"@,
            rows@[0].subtitle_lines@.len() == 0,
            !rows@[0].is_active,
            !rows@[0].is_open,
            forall|j: int|
                0 <= j < i ==> row_of_entry(#[trigger] rows@[j + 1], entries@[j], active_workspace@),
        decreases entries@.len() - i,
    {
        let entry = &entries[i];
        let title = match entry.tab_count {
            Some(n) => {
                proof {
                    reveal_strlit(" (");
                    reveal_strlit(")");
                }
                String::from_str(entry.name.as_str()).concat(" (").concat(
                    usize_decimal(n).as_str(),
                ).concat(")")
            },
            None => String::from_str(entry.name.as_str()),
        };
        let row = SidebarRow {
            item: SidebarItem::Entry(entry.name.clone()),
            title,
            subtitle_lines: clone_strings(entry.subtitle_lines.as_slice()),
            is_active: str_eq(entry.name.as_str(), active_workspace),
            is_open: entry.tab_count.is_some(),
        };
        proof {
            assert(row.title@ =~= row_title(entry.name@, entry.tab_count));
        }
        rows.push(row);
        i = i + 1;
    }
    rows
}

/// All colors resolved to concrete values at model build time; paint
/// picks per-row colors by state (active/hover/open/inactive).
#[derive(Clone, Copy, Debug, PartialEq)]
pub struct ResolvedColors<C> {
    pub background: C,
    pub foreground: C,
    pub active_bg: C,
    pub active_fg: C,
    pub inactive_fg: C,
    pub subtitle_fg: C,
    pub hover_bg: C,
    pub hover_fg: C,
    pub active_indicator: C,
    pub menu_border: C,
}

/// A background/foreground pair, as configured for a row state.
#[derive(Clone, Copy, Debug, PartialEq)]
pub struct ColorPair<C> {
    pub bg_color: C,
    pub fg_color: C,
}

/// The sidebar colors the configuration sets; unset ones are derived.
#[derive(Clone, Copy, Debug, PartialEq)]
pub struct SidebarColors<C> {
    pub background: Option<C>,
    pub foreground: Option<C>,
    pub inactive_foreground: Option<C>,
    pub subtitle_foreground: Option<C>,
    pub active: Option<ColorPair<C>>,
    pub hover: Option<ColorPair<C>>,
    pub active_indicator: Option<C>,
    pub menu_border: Option<C>,
}

/// The terminal palette colors the sidebar derives its defaults from.
#[derive(Clone, Copy, Debug, PartialEq)]
pub struct PaletteColors<C> {
    pub background: C,
    pub foreground: C,
    /// The palette's dim foreground (ANSI color 8).
    pub dim_foreground: C,
}

/// How far a derived color is pushed towards contrast with the
/// background it is derived from.
#[derive(Clone, Copy, Debug, PartialEq, Eq)]
pub enum ContrastShift {
    /// The active row's fill, when none is configured.
    ActiveFill,
    /// The hover fill, when none is configured.
    Hover,
    /// The menu border, when none is configured.
    MenuBorder,
    /// The hover fill of a dialog's primary button.
    ButtonHover,
}

/// The configured value, or `default`.
pub open spec fn or_default<C>(v: Option<C>, default: C) -> C {
    match v {
        Some(c) => c,
        None => default,
    }
}

/// `r` holds the sidebar colors resolved from the configured `sidebar`
/// colors and the `palette`, with `shift` doing the shifting.
pub open spec fn resolved_from<C, F: Fn(C, ContrastShift) -> C>(
    r: ResolvedColors<C>,
    sidebar: Option<&SidebarColors<C>>,
    palette: PaletteColors<C>,
    shift: F,
) -> bool {
    let sc = match sidebar {
        Some(sc) => *sc,
        None => SidebarColors {
            background: None,
            foreground: None,
            inactive_foreground: None,
            subtitle_foreground: None,
            active: None,
            hover: None,
            active_indicator: None,
            menu_border: None,
        },
    };
    &&& r.background == or_default(sc.background, palette.background)
    &&& r.foreground == or_default(sc.foreground, palette.foreground)
    &&& match sc.active {
        Some(a) => r.active_bg == a.bg_color && r.active_fg == a.fg_color,
        None => shift.ensures((r.background, ContrastShift::ActiveFill), r.active_bg)
            && r.active_fg == palette.foreground,
    }
    &&& r.inactive_fg == or_default(sc.inactive_foreground, palette.dim_foreground)
    &&& r.subtitle_fg == or_default(sc.subtitle_foreground, palette.dim_foreground)
    &&& match sc.hover {
        Some(h) => r.hover_bg == h.bg_color && r.hover_fg == h.fg_color,
        None => shift.ensures((r.background, ContrastShift::Hover), r.hover_bg)
            && r.hover_fg == r.foreground,
    }
    &&& r.active_indicator == or_default(sc.active_indicator, r.active_fg)
    &&& match sc.menu_border {
        Some(c) => r.menu_border == c,
        None => shift.ensures((r.background, ContrastShift::MenuBorder), r.menu_border),
    }
}

/// Every color the sidebar configuration sets is the resolved color.
/// An unset one comes from the palette: background and foreground from
/// its own, inactive and subtitle text from its dim foreground, the
/// active text from its foreground; the hover text is the resolved
/// foreground and the active indicator the resolved active text; the
/// active fill, the hover fill and the menu border are the resolved
/// background shifted towards contrast by `shift`.
pub proof fn lemma_colors_follow_configuration<C, F: Fn(C, ContrastShift) -> C>(
    r: ResolvedColors<C>,
    sidebar: Option<&SidebarColors<C>>,
    palette: PaletteColors<C>,
    shift: F,
)
    requires
        resolved_from(r, sidebar, palette, shift),
    ensures
        sidebar is Some && sidebar.unwrap().background is Some ==> r.background
            == sidebar.unwrap().background.unwrap(),
        sidebar is Some && sidebar.unwrap().foreground is Some ==> r.foreground
            == sidebar.unwrap().foreground.unwrap(),
        sidebar is Some && sidebar.unwrap().inactive_foreground is Some ==> r.inactive_fg
            == sidebar.unwrap().inactive_foreground.unwrap(),
        sidebar is Some && sidebar.unwrap().subtitle_foreground is Some ==> r.subtitle_fg
            == sidebar.unwrap().subtitle_foreground.unwrap(),
        sidebar is Some && sidebar.unwrap().active is Some ==> r.active_bg
            == sidebar.unwrap().active.unwrap().bg_color && r.active_fg
            == sidebar.unwrap().active.unwrap().fg_color,
        sidebar is Some && sidebar.unwrap().hover is Some ==> r.hover_bg
            == sidebar.unwrap().hover.unwrap().bg_color && r.hover_fg
            == sidebar.unwrap().hover.unwrap().fg_color,
        sidebar is Some && sidebar.unwrap().active_indicator is Some ==> r.active_indicator
            == sidebar.unwrap().active_indicator.unwrap(),
        sidebar is Some && sidebar.unwrap().menu_border is Some ==> r.menu_border
            == sidebar.unwrap().menu_border.unwrap(),
        sidebar is None || sidebar.unwrap().background is None ==> r.background == palette.background,
        sidebar is None || sidebar.unwrap().foreground is None ==> r.foreground == palette.foreground,
        sidebar is None || sidebar.unwrap().inactive_foreground is None ==> r.inactive_fg
            == palette.dim_foreground,
        sidebar is None || sidebar.unwrap().subtitle_foreground is None ==> r.subtitle_fg
            == palette.dim_foreground,
        sidebar is None || sidebar.unwrap().active is None ==> r.active_fg == palette.foreground
            && shift.ensures((r.background, ContrastShift::ActiveFill), r.active_bg),
        sidebar is None || sidebar.unwrap().hover is None ==> r.hover_fg == r.foreground
            && shift.ensures((r.background, ContrastShift::Hover), r.hover_bg),
        sidebar is None || sidebar.unwrap().active_indicator is None ==> r.active_indicator
            == r.active_fg,
        sidebar is None || sidebar.unwrap().menu_border is None ==> shift.ensures(
            (r.background, ContrastShift::MenuBorder),
            r.menu_border,
        ),
{
}

/// Resolves the sidebar colors: each configured color wins; otherwise
/// background and foreground come from the palette, the active fill
/// and the hover fill and the menu border are the background shifted
/// towards contrast, the active text is the palette foreground, the
/// hover text the resolved foreground, inactive and subtitle text the
/// palette's dim foreground, and the active indicator the active text
/// color. `shift` does the shifting.
pub fn resolve_colors<C: Copy, F: Fn(C, ContrastShift) -> C>(
    sidebar: Option<&SidebarColors<C>>,
    palette: &PaletteColors<C>,
    shift: F,
) -> (r: ResolvedColors<C>)
    requires
        forall|c: C, k: ContrastShift| shift.requires((c, k)),
    ensures
        resolved_from(r, sidebar, *palette, shift),
{
    let sc = match sidebar {
        Some(sc) => *sc,
        None => SidebarColors {
            background: None,
            foreground: None,
            inactive_foreground: None,
            subtitle_foreground: None,
            active: None,
            hover: None,
            active_indicator: None,
            menu_border: None,
        },
    };
    let background = match sc.background {
        Some(c) => c,
        None => palette.background,
    };
    let foreground = match sc.foreground {
        Some(c) => c,
        None => palette.foreground,
    };
    let (active_bg, active_fg) = match sc.active {
        Some(a) => (a.bg_color, a.fg_color),
        // a gently contrasted fill keeps the active pill visible
        None => (shift(background, ContrastShift::ActiveFill), palette.foreground),
    };
    let inactive_fg = match sc.inactive_foreground {
        Some(c) => c,
        None => palette.dim_foreground,
    };
    let subtitle_fg = match sc.subtitle_foreground {
        Some(c) => c,
        None => palette.dim_foreground,
    };
    let (hover_bg, hover_fg) = match sc.hover {
        Some(h) => (h.bg_color, h.fg_color),
        None => (shift(background, ContrastShift::Hover), foreground),
    };
    let active_indicator = match sc.active_indicator {
        Some(c) => c,
        None => active_fg,
    };
    let menu_border = match sc.menu_border {
        Some(c) => c,
        None => shift(background, ContrastShift::MenuBorder),
    };
    ResolvedColors {
        background,
        foreground,
        active_bg,
        active_fg,
        inactive_fg,
        subtitle_fg,
        hover_bg,
        hover_fg,
        active_indicator,
        menu_border,
    }
}

/// Colors for one row, or one dialog button, in each interaction
/// state.
#[derive(Clone, Copy, Debug, PartialEq)]
pub struct RowStyle<C> {
    pub bg: C,
    pub fg: C,
    pub hover_bg: C,
    pub hover_fg: C,
}

/// The colors a row is painted in: the active row on the active fill
/// with the active text color; other rows on the background, the new
/// button and open workspaces in the foreground color, closed ones in
/// the inactive color; every row hovers in the hover colors.
pub fn style_for_row<C: Copy>(row: &SidebarRow, colors: &ResolvedColors<C>) -> (r: RowStyle<C>)
    ensures
        r.bg == (if row.is_active {
            colors.active_bg
        } else {
            colors.background
        }),
        r.fg == (if row.item is NewButton {
            colors.foreground
        } else if row.is_active {
            colors.active_fg
        } else if row.is_open {
            colors.foreground
        } else {
            colors.inactive_fg
        }),
        r.hover_bg == colors.hover_bg,
        r.hover_fg == colors.hover_fg,
{
    let bg = if row.is_active {
        colors.active_bg
    } else {
        colors.background
    };
    let fg = match &row.item {
        SidebarItem::NewButton => colors.foreground,
        _ => if row.is_active {
            colors.active_fg
        } else if row.is_open {
            colors.foreground
        } else {
            colors.inactive_fg
        },
    };
    RowStyle { bg, fg, hover_bg: colors.hover_bg, hover_fg: colors.hover_fg }
}

/// The colors a dialog button is painted in: the primary button in the
/// active colors, hovering on the active fill shifted towards contrast
/// (by `shift`) with the same text color; the other button on the
/// background in the foreground color, hovering in the hover colors.
pub fn button_style<C: Copy, F: Fn(C, ContrastShift) -> C>(
    colors: &ResolvedColors<C>,
    primary: bool,
    shift: F,
) -> (r: RowStyle<C>)
    requires
        forall|c: C, k: ContrastShift| shift.requires((c, k)),
    ensures
        primary ==> r.bg == colors.active_bg && r.fg == colors.active_fg && shift.ensures(
            (colors.active_bg, ContrastShift::ButtonHover),
            r.hover_bg,
        ) && r.hover_fg == colors.active_fg,
        !primary ==> r == (RowStyle {
            bg: colors.background,
            fg: colors.foreground,
            hover_bg: colors.hover_bg,
            hover_fg: colors.hover_fg,
        }),
{
    if primary {
        let hover_bg = shift(colors.active_bg, ContrastShift::ButtonHover);
        RowStyle {
            bg: colors.active_bg,
            fg: colors.active_fg,
            hover_bg,
            hover_fg: colors.active_fg,
        }
    } else {
        RowStyle {
            bg: colors.background,
            fg: colors.foreground,
            hover_bg: colors.hover_bg,
            hover_fg: colors.hover_fg,
        }
    }
}

/// The sidebar's display model: its rows and its resolved colors.
#[derive(Clone, Debug, PartialEq)]
pub struct SidebarState<C> {
    pub rows: Vec<SidebarRow>,
    pub colors: ResolvedColors<C>,
}

impl<C: Copy> SidebarState<C> {
    /// The model of the listed `entries` while `active_workspace` is
    /// active, in the colors resolved from the configured `sidebar`
    /// colors and the `palette`.
    pub fn new<F: Fn(C, ContrastShift) -> C>(
        active_workspace: &str,
        entries: &[SidebarEntry],
        sidebar: Option<&SidebarColors<C>>,
        palette: &PaletteColors<C>,
        shift: F,
    ) -> (r: Self)
        requires
            forall|c: C, k: ContrastShift| shift.requires((c, k)),
        ensures
            lists_entries(r.rows@, active_workspace@, entries@),
            resolved_from(r.colors, sidebar, *palette, shift),
    {
        SidebarState {
            rows: build_rows(active_workspace, entries),
            colors: resolve_colors(sidebar, palette, shift),
        }
    }
}

/// A step of painting the sidebar.
#[derive(Clone, Copy, Debug, PartialEq, Eq)]
pub enum PaintStep {
    /// Build the display model (rows and colors).
    BuildModel,
    /// Lay out the model as an element tree.
    BuildElement,
    /// Draw the laid-out element.
    Draw,
}

/// The next step of painting the sidebar, given which of its two
/// caches exist: the model is built first, since the element is laid
/// out from it; once both exist, the element is drawn. The window
/// performs the step and asks again until it has drawn.
pub fn paint_sidebar(has_model: bool, has_element: bool) -> (r: PaintStep)
    ensures
        r == (if !has_model {
            PaintStep::BuildModel
        } else if !has_element {
            PaintStep::BuildElement
        } else {
            PaintStep::Draw
        }),
{
    if !has_model {
        PaintStep::BuildModel
    } else if !has_element {
        PaintStep::BuildElement
    } else {
        PaintStep::Draw
    }
}

} // verus!
