//! Sidebar entry model: merges configured workspaces with live mux
//! workspaces and applies in-memory display overrides.

use crate::spawn_config::WorkspaceEntry;
use crate::strmap::{NameSet, StrMap};
use crate::text::{is_blank, opt_view, str_eq, str_is_blank, views};
use crate::workspace_defaults::{
    first_declaring, lemma_command_resolution, lemma_cwd_resolution, undeclared, opt_meta_view, profile_display, resolve_workspace_defaults_impl, resolved_command,
    resolved_cwd, workspace_profile_display, WorkspaceMetadata, WorkspaceMetadataView,
};
use vstd::prelude::*;
use vstd::string::*;

verus! {

/// One workspace as the sidebar lists it.
#[derive(Clone, Debug, PartialEq, Eq)]
pub struct SidebarEntry {
    pub name: String,
    /// `Some(n)` for a live workspace with `n` tabs;
    /// `None` for a configured-but-not-open workspace.
    pub tab_count: Option<usize>,
    /// One line per configured default, in fixed order: directory
    /// (basename), command, profile. Empty when the workspace has no
    /// defaults. Each line carries a leading marker: `▸` directory,
    /// `$` command, `◆` profile.
    pub subtitle_lines: Vec<String>,
}

/// In-memory display overrides of the sidebar.
#[derive(Clone, Debug, Default, PartialEq, Eq)]
pub struct SidebarOverrides {
    /// Explicit display order. Names not listed keep their natural
    /// order after the listed ones.
    pub order: Vec<String>,
    /// Entries hidden via "remove from list"; the workspace itself
    /// is never killed.
    pub hidden: NameSet,
    /// Workspace names kept on record across restarts.
    pub remembered: Vec<String>,
}

/// The value of the display overrides.
pub struct SidebarOverridesView {
    pub order: Seq<Seq<char>>,
    pub hidden: Set<Seq<char>>,
    pub remembered: Seq<Seq<char>>,
}

impl View for SidebarOverrides {
    type V = SidebarOverridesView;

    open spec fn view(&self) -> SidebarOverridesView {
        SidebarOverridesView {
            order: views(self.order@),
            hidden: self.hidden@,
            remembered: views(self.remembered@),
        }
    }
}

/// `n` appended to `names` unless already there.
pub open spec fn add_name(names: Seq<Seq<char>>, n: Seq<char>) -> Seq<Seq<char>> {
    if names.contains(n) {
        names
    } else {
        names.push(n)
    }
}

/// Names of the first `k` configuration entries: file order, first
/// occurrence wins, blank names skipped.
pub open spec fn config_names(entries: Seq<WorkspaceEntry>, k: int) -> Seq<Seq<char>>
    decreases k,
{
    if k <= 0 {
        Seq::empty()
    } else {
        let names = config_names(entries, k - 1);
        if is_blank(entries[k - 1].name@) {
            names
        } else {
            add_name(names, entries[k - 1].name@)
        }
    }
}

/// `names` followed by the names of the first `k` live workspaces that
/// it does not hold yet, in their order.
pub open spec fn with_live_names(names: Seq<Seq<char>>, live: Seq<(String, usize)>, k: int) -> Seq<
    Seq<char>,
>
    decreases k,
{
    if k <= 0 {
        names
    } else {
        add_name(with_live_names(names, live, k - 1), live[k - 1].0@)
    }
}

/// Natural order: configured workspaces first, then live-only ones.
pub open spec fn natural_names(entries: Seq<WorkspaceEntry>, live: Seq<(String, usize)>) -> Seq<
    Seq<char>,
> {
    with_live_names(config_names(entries, entries.len() as int), live, live.len() as int)
}

/// Index of the first occurrence of `x` at or after `i`, or -1.
pub open spec fn find_from(s: Seq<Seq<char>>, x: Seq<char>, i: int) -> int
    decreases s.len() - i,
{
    if i < 0 || i >= s.len() {
        -1
    } else if s[i] == x {
        i
    } else {
        find_from(s, x, i + 1)
    }
}

/// `find_from` gives -1 or the first index at or after `i` holding `x`.
pub proof fn lemma_find_from(s: Seq<Seq<char>>, x: Seq<char>, i: int)
    requires
        0 <= i,
    ensures
        find_from(s, x, i) == -1 || (i <= find_from(s, x, i) < s.len() && s[find_from(s, x, i)]
            == x),
        find_from(s, x, i) == -1 ==> forall|j: int| i <= j < s.len() ==> s[j] != x,
        find_from(s, x, i) >= 0 ==> forall|j: int| i <= j < find_from(s, x, i) ==> s[j] != x,
    decreases s.len() - i,
{
    if i < s.len() && s[i] != x {
        lemma_find_from(s, x, i + 1);
    }
}

/// After the first `k` names of `order`: the names pulled to the front,
/// in `order`'s order, and what is left of `names` in its own order.
pub open spec fn pull_front(names: Seq<Seq<char>>, order: Seq<Seq<char>>, k: int) -> (
    Seq<Seq<char>>,
    Seq<Seq<char>>,
)
    decreases k,
{
    if k <= 0 {
        (Seq::empty(), names)
    } else {
        let (pulled, rest) = pull_front(names, order, k - 1);
        let p = find_from(rest, order[k - 1], 0);
        if p >= 0 {
            (pulled.push(order[k - 1]), rest.remove(p))
        } else {
            (pulled, rest)
        }
    }
}

/// `names` with the names of `order` pulled to the front in `order`'s
/// order; names `order` does not list keep their order after them.
pub open spec fn apply_order(names: Seq<Seq<char>>, order: Seq<Seq<char>>) -> Seq<Seq<char>> {
    let (pulled, rest) = pull_front(names, order, order.len() as int);
    pulled + rest
}

/// The first `k` of `names` that are not hidden.
pub open spec fn unhidden(names: Seq<Seq<char>>, hidden: Set<Seq<char>>, k: int) -> Seq<Seq<char>>
    decreases k,
{
    if k <= 0 {
        Seq::empty()
    } else if hidden.contains(names[k - 1]) {
        unhidden(names, hidden, k - 1)
    } else {
        unhidden(names, hidden, k - 1).push(names[k - 1])
    }
}

/// The names the sidebar lists, in display order.
pub open spec fn shown_names(
    entries: Seq<WorkspaceEntry>,
    live: Seq<(String, usize)>,
    order: Seq<Seq<char>>,
    hidden: Set<Seq<char>>,
) -> Seq<Seq<char>> {
    let ordered = apply_order(natural_names(entries, live), order);
    unhidden(ordered, hidden, ordered.len() as int)
}

/// The tab count of the first live workspace at or after `i` named `n`.
pub open spec fn live_count_from(live: Seq<(String, usize)>, n: Seq<char>, i: int) -> Option<usize>
    decreases live.len() - i,
{
    if i < 0 || i >= live.len() {
        None
    } else if live[i].0@ == n {
        Some(live[i].1)
    } else {
        live_count_from(live, n, i + 1)
    }
}

/// Tab count of workspace `n` if it is live.
pub open spec fn live_count(live: Seq<(String, usize)>, n: Seq<char>) -> Option<usize> {
    live_count_from(live, n, 0)
}

/// The runtime overrides of workspace `n`.
pub open spec fn meta_for(metadata: Map<Seq<char>, WorkspaceMetadata>, n: Seq<char>) -> Option<
    WorkspaceMetadataView,
> {
    if metadata.contains_key(n) {
        Some(metadata[n]@)
    } else {
        None
    }
}

/// Marker of the directory line.
pub open spec fn dir_marker() -> Seq<char> {
    seq!['\u{25b8}', ' ']
}

/// Marker of the command line.
pub open spec fn command_marker() -> Seq<char> {
    seq!['$', ' ']
}

/// Marker of the profile line.
pub open spec fn profile_marker() -> Seq<char> {
    seq!['\u{25c6}', ' ']
}

/// The line for an optional value under a marker.
pub open spec fn marked_line(marker: Seq<char>, value: Option<Seq<char>>) -> Seq<Seq<char>> {
    match value {
        Some(v) => seq![marker + v],
        None => Seq::empty(),
    }
}

/// Subtitle lines: directory basename, command, profile, each present
/// only when set.
pub open spec fn subtitle_spec(
    dir: Option<Seq<char>>,
    command: Option<Seq<char>>,
    profile: Option<Seq<char>>,
) -> Seq<Seq<char>> {
    marked_line(dir_marker(), dir) + marked_line(command_marker(), command) + marked_line(
        profile_marker(),
        profile,
    )
}

/// A path component with no separator, drive or special meaning.
pub open spec fn plain_component(n: Seq<char>) -> bool {
    &&& n.len() > 0
    &&& !n.contains('/')
    &&& !n.contains('\\')
    &&& !n.contains(':')
    &&& n != seq!['.']
    &&& n != seq!['.', '.']
}

/// What holds of the final component that `Path::file_name` gives for
/// the path `p` on every platform.
pub open spec fn file_name_facts(p: Seq<char>, r: Option<Seq<char>>) -> bool {
    &&& r matches Some(b) ==> b.len() > 0
    &&& plain_component(p) ==> r == Some(p)
    &&& forall|q: Seq<char>, n: Seq<char>|
        #![trigger q + seq!['/'] + n]
        p == q + seq!['/'] + n && plain_component(n) && !q.contains('\\') && !(q.len() >= 2
            && q[0] == '/' && q[1] == '/') ==> r == Some(n)
}

/// Calls `std::path::Path::file_name` on `p` and converts the component
/// to a string. Not stated: the result of paths whose last component
/// follows a backslash, a drive or a UNC prefix, which differ between
/// platforms; only `file_name_facts`, which hold on every platform.
#[verifier::external_body]
fn path_file_name(p: &str) -> (r: Option<String>)
    ensures
        file_name_facts(p@, opt_view(r)),
{
    std::path::Path::new(p).file_name().map(|n| n.to_string_lossy().into_owned())
}

/// The subtitle lines of a workspace whose default directory has
/// basename `dir`, whose default command is `command` and whose profile
/// shows as `profile`.
pub fn subtitle_lines(dir: Option<String>, command: Option<String>, profile: Option<String>) -> (r:
    Vec<String>)
    ensures
        views(r@) == subtitle_spec(opt_view(dir), opt_view(command), opt_view(profile)),
{
    let mut lines: Vec<String> = Vec::new();
    proof {
        reveal_strlit("\u{25b8} ");
        reveal_strlit("$ ");
        reveal_strlit("\u{25c6} ");
        assert("\u{25b8} "@ =~= dir_marker());
        assert("$ "@ =~= command_marker());
        assert("\u{25c6} "@ =~= profile_marker());
    }
    match &dir {
        Some(base) => {
            lines.push(String::from_str("\u{25b8} ").concat(base.as_str()));
            assert(views(lines@) =~= marked_line(dir_marker(), opt_view(dir)));
        },
        None => {
            assert(views(lines@) =~= marked_line(dir_marker(), opt_view(dir)));
        },
    }
    let ghost after_dir = views(lines@);
    match &command {
        Some(c) => {
            lines.push(String::from_str("$ ").concat(c.as_str()));
        },
        None => {},
    }
    let ghost after_command = views(lines@);
    assert(after_command =~= after_dir + marked_line(command_marker(), opt_view(command)));
    match &profile {
        Some(p) => {
            lines.push(String::from_str("\u{25c6} ").concat(p.as_str()));
        },
        None => {},
    }
    assert(views(lines@) =~= after_command + marked_line(profile_marker(), opt_view(profile)));
    lines
}

/// Whether `n` is among `names`.
pub fn contains_name(names: &Vec<String>, n: &str) -> (r: bool)
    ensures
        r == views(names@).contains(n@),
{
    let mut i: usize = 0;
    while i < names.len()
        invariant
            i <= names@.len(),
            forall|j: int| 0 <= j < i ==> names@[j]@ != n@,
        decreases names@.len() - i,
    {
        if str_eq(names[i].as_str(), n) {
            assert(views(names@)[i as int] == n@);
            return true;
        }
        i = i + 1;
    }
    proof {
        if views(names@).contains(n@) {
            let j = choose|j: int| 0 <= j < views(names@).len() && views(names@)[j] == n@;
            assert(names@[j]@ == n@);
        }
    }
    false
}

/// Position of the first occurrence of `n` in `names`.
fn position_of(names: &Vec<String>, n: &str) -> (r: Option<usize>)
    ensures
        match r {
            Some(p) => p as int == find_from(views(names@), n@, 0) && p < names@.len()
                && names@[p as int]@ == n@,
            None => find_from(views(names@), n@, 0) == -1,
        },
{
    proof {
        lemma_find_from(views(names@), n@, 0);
    }
    let mut i: usize = 0;
    while i < names.len()
        invariant
            i <= names@.len(),
            find_from(views(names@), n@, 0) == find_from(views(names@), n@, i as int),
        decreases names@.len() - i,
    {
        if str_eq(names[i].as_str(), n) {
            return Some(i);
        }
        i = i + 1;
    }
    None
}

/// Tab count of the first live workspace named `n`.
fn live_tab_count(live: &[(String, usize)], n: &str) -> (r: Option<usize>)
    ensures
        r == live_count(live@, n@),
{
    let mut i: usize = 0;
    while i < live.len()
        invariant
            i <= live@.len(),
            live_count(live@, n@) == live_count_from(live@, n@, i as int),
        decreases live@.len() - i,
    {
        if str_eq(live[i].0.as_str(), n) {
            return Some(live[i].1);
        }
        i = i + 1;
    }
    None
}

/// The names in natural order: configured (file order, first wins,
/// blank skipped), then live-only workspaces in the given order.
fn natural_order(config_entries: &[WorkspaceEntry], live: &[(String, usize)]) -> (r: Vec<String>)
    ensures
        views(r@) == natural_names(config_entries@, live@),
{
    let mut names: Vec<String> = Vec::new();
    let mut i: usize = 0;
    while i < config_entries.len()
        invariant
            i <= config_entries@.len(),
            views(names@) == config_names(config_entries@, i as int),
        decreases config_entries@.len() - i,
    {
        let name = &config_entries[i].name;
        if !str_is_blank(name.as_str()) && !contains_name(&names, name.as_str()) {
            let ghost before = names@;
            names.push(name.clone());
            assert(views(names@) =~= views(before).push(name@));
        }
        i = i + 1;
    }
    let ghost base = views(names@);
    let mut k: usize = 0;
    while k < live.len()
        invariant
            k <= live@.len(),
            base == config_names(config_entries@, config_entries@.len() as int),
            views(names@) == with_live_names(base, live@, k as int),
        decreases live@.len() - k,
    {
        let name = &live[k].0;
        if !contains_name(&names, name.as_str()) {
            let ghost before = names@;
            names.push(name.clone());
            assert(views(names@) =~= views(before).push(name@));
        }
        k = k + 1;
    }
    names
}


/// `names` reordered by `order`: the names `order` lists are pulled to
/// the front in its order, the rest keep their order after them.
fn reorder(names: Vec<String>, order: &Vec<String>) -> (r: Vec<String>)
    ensures
        views(r@) == apply_order(views(names@), views(order@)),
{
    let ghost natural = views(names@);
    let ghost ord = views(order@);
    let mut rest = names;
    let mut pulled: Vec<String> = Vec::new();
    let mut k: usize = 0;
    while k < order.len()
        invariant
            k <= order@.len(),
            ord == views(order@),
            (views(pulled@), views(rest@)) == pull_front(natural, ord, k as int),
        decreases order@.len() - k,
    {
        let name = &order[k];
        match position_of(&rest, name.as_str()) {
            Some(p) => {
                let ghost before_rest = rest@;
                let ghost before_pulled = pulled@;
                let x = rest.remove(p);
                pulled.push(x);
                proof {
                    assert(views(before_rest)[p as int] == ord[k as int]);
                    assert(views(pulled@) =~= views(before_pulled).push(ord[k as int]));
                    assert(views(rest@) =~= views(before_rest).remove(p as int));
                }
            },
            None => {},
        }
        k = k + 1;
    }
    let ghost p_views = views(pulled@);
    let ghost r_views = views(rest@);
    pulled.append(&mut rest);
    assert(views(pulled@) =~= p_views + r_views);
    pulled
}

/// The subtitle's directory component: none without a directory, else
/// what `Path::file_name` gives for it.
pub open spec fn dir_base_facts(cwd: Option<String>, base: Option<Seq<char>>) -> bool {
    match cwd {
        None => base is None,
        Some(c) => file_name_facts(c@, base),
    }
}

/// `e` is the sidebar entry of workspace `n`: its name, its live tab
/// count, and subtitle lines for its resolved directory basename,
/// command and profile.
pub open spec fn describes(
    e: SidebarEntry,
    n: Seq<char>,
    entries: Seq<WorkspaceEntry>,
    live: Seq<(String, usize)>,
    metadata: Map<Seq<char>, WorkspaceMetadata>,
) -> bool {
    let meta = meta_for(metadata, n);
    &&& e.name@ == n
    &&& e.tab_count == live_count(live, n)
    &&& exists|base: Option<Seq<char>>|
        dir_base_facts(resolved_cwd(meta, entries, n), base) && views(e.subtitle_lines@)
            == #[trigger] subtitle_spec(
            base,
            opt_view(resolved_command(meta, entries, n)),
            profile_display(meta),
        )
}

/// The entry of workspace `name`.
fn entry_for(
    name: &String,
    config_entries: &[WorkspaceEntry],
    live: &[(String, usize)],
    metadata: &StrMap<WorkspaceMetadata>,
) -> (r: SidebarEntry)
    ensures
        describes(r, name@, config_entries@, live@, metadata@),
{
    let tab_count = live_tab_count(live, name.as_str());
    let meta = metadata.get(name.as_str());
    let ghost mv = meta_for(metadata@, name@);
    assert(opt_meta_view(crate::workspace_defaults::unref(meta)) == mv);
    let (cwd, command) = resolve_workspace_defaults_impl(meta, config_entries, name.as_str());
    let base = match &cwd {
        Some(p) => path_file_name(p.as_str()),
        None => None,
    };
    let profile = workspace_profile_display(meta);
    let ghost b = opt_view(base);
    let lines = subtitle_lines(base, command, profile);
    let r = SidebarEntry { name: name.clone(), tab_count, subtitle_lines: lines };
    assert(dir_base_facts(resolved_cwd(mv, config_entries@, name@), b));
    r
}

/// Merge configured workspaces with live mux workspaces into the
/// sidebar's display list.
///
/// Natural order: config entries (file order, first-wins on
/// duplicates, empty names skipped), then live-only workspaces in the
/// given order. `overrides.order` pulls named entries to the front in
/// its own order; `overrides.hidden` entries are dropped.
pub fn compute_sidebar_entries(
    config_entries: &[WorkspaceEntry],
    live: &[(String, usize)],
    metadata: &StrMap<WorkspaceMetadata>,
    overrides: &SidebarOverrides,
) -> (r: Vec<SidebarEntry>)
    ensures
        r@.len() == shown_names(config_entries@, live@, views(overrides.order@), overrides.hidden@).len(),
        forall|i: int|
            0 <= i < r@.len() ==> describes(
                #[trigger] r@[i],
                shown_names(config_entries@, live@, views(overrides.order@), overrides.hidden@)[i],
                config_entries@,
                live@,
                metadata@,
            ),
{
    let natural = natural_order(config_entries, live);
    let names = if overrides.order.len() > 0 {
        reorder(natural, &overrides.order)
    } else {
        proof {
            assert(views(overrides.order@) =~= Seq::<Seq<char>>::empty());
            assert(apply_order(views(natural@), views(overrides.order@)) =~= views(natural@));
        }
        natural
    };
    let ghost ordered = views(names@);
    let ghost shown = shown_names(config_entries@, live@, views(overrides.order@), overrides.hidden@);
    assert(shown == unhidden(ordered, overrides.hidden@, ordered.len() as int));
    let mut result: Vec<SidebarEntry> = Vec::new();
    let mut i: usize = 0;
    while i < names.len()
        invariant
            i <= names@.len(),
            ordered == views(names@),
            result@.len() == unhidden(ordered, overrides.hidden@, i as int).len(),
            forall|j: int|
                0 <= j < result@.len() ==> describes(
                    #[trigger] result@[j],
                    unhidden(ordered, overrides.hidden@, i as int)[j],
                    config_entries@,
                    live@,
                    metadata@,
                ),
        decreases names@.len() - i,
    {
        let name = &names[i];
        assert(ordered[i as int] == name@);
        if !overrides.hidden.contains(name.as_str()) {
            let e = entry_for(name, config_entries, live, metadata);
            result.push(e);
        }
        i = i + 1;
    }
    result
}


/// `names` followed by the first `k` of `current` that it does not hold.
pub open spec fn append_missing(names: Seq<Seq<char>>, current: Seq<Seq<char>>, k: int) -> Seq<
    Seq<char>,
>
    decreases k,
{
    if k <= 0 {
        names
    } else {
        add_name(append_missing(names, current, k - 1), current[k - 1])
    }
}

/// The explicit order a move starts from: `order`, or the current
/// display order when `order` is empty, completed with the current
/// names it lacks.
pub open spec fn materialized(current: Seq<Seq<char>>, order: Seq<Seq<char>>) -> Seq<Seq<char>> {
    let base = if order.len() == 0 {
        current
    } else {
        order
    };
    append_missing(base, current, current.len() as int)
}

/// `x` limited to `[lo, hi]`.
pub open spec fn clamp(x: int, lo: int, hi: int) -> int {
    if x < lo {
        lo
    } else if x > hi {
        hi
    } else {
        x
    }
}

/// `order` with the first occurrence of `name` taken out and put back
/// `delta` places further, limited to the ends; unchanged when `name`
/// is not there.
pub open spec fn moved(order: Seq<Seq<char>>, name: Seq<char>, delta: int) -> Seq<Seq<char>> {
    let idx = find_from(order, name, 0);
    if idx < 0 {
        order
    } else {
        let rest = order.remove(idx);
        rest.insert(clamp(idx + delta, 0, rest.len() as int), order[idx])
    }
}

/// Move `name` by `delta` positions within `order`, first
/// materializing `order` from the `current` display order if it is
/// empty, and appending any current names missing from it.
pub fn move_in_order(current: &[String], order: &mut Vec<String>, name: &str, delta: isize)
    requires
        find_from(materialized(views(current@), views(old(order)@)), name@, 0) + delta
            <= isize::MAX,
    ensures
        views(final(order)@) == moved(
            materialized(views(current@), views(old(order)@)),
            name@,
            delta as int,
        ),
{
    let ghost cur = views(current@);
    if order.len() == 0 {
        *order = crate::text::clone_strings(current);
    }
    let ghost base = views(order@);
    assert(base == (if views(old(order)@).len() == 0 {
        cur
    } else {
        views(old(order)@)
    }));
    let mut k: usize = 0;
    while k < current.len()
        invariant
            k <= current@.len(),
            cur == views(current@),
            views(order@) == append_missing(base, cur, k as int),
        decreases current@.len() - k,
    {
        let n = &current[k];
        if !contains_name(order, n.as_str()) {
            let ghost before = order@;
            order.push(n.clone());
            assert(views(order@) =~= views(before).push(n@));
        }
        k = k + 1;
    }
    let ghost m = views(order@);
    match position_of(order, name) {
        Some(idx) => {
            let item = order.remove(idx);
            let len = order.len();
            let target: i128 = idx as i128 + delta as i128;
            let new_idx: usize = if target < 0 {
                0
            } else if target > len as i128 {
                len
            } else {
                target as usize
            };
            order.insert(new_idx, item);
            proof {
                assert(views(order@) =~= m.remove(idx as int).insert(new_idx as int, m[idx as int]));
            }
        },
        None => {},
    }
}


/// Taking out the element at `from` and putting it back at `to` keeps a
/// duplicate-free sequence duplicate-free and with the same elements.
pub proof fn lemma_move_elem(s: Seq<Seq<char>>, from: int, to: int)
    requires
        s.no_duplicates(),
        0 <= from < s.len(),
        0 <= to <= s.len() - 1,
    ensures
        s.remove(from).insert(to, s[from]).no_duplicates(),
        s.remove(from).insert(to, s[from]).len() == s.len(),
        forall|x: Seq<char>| #[trigger] s.remove(from).insert(to, s[from]).contains(x) <==> s.contains(x),
{
    let e = s[from];
    let t = s.remove(from);
    let u = t.insert(to, e);
    assert forall|j: int| 0 <= j < t.len() implies #[trigger] t[j] == (if j < from {
        s[j]
    } else {
        s[j + 1]
    }) by {}
    assert forall|j: int| 0 <= j < u.len() implies #[trigger] u[j] == (if j < to {
        t[j]
    } else if j == to {
        e
    } else {
        t[j - 1]
    }) by {}
    assert(!t.contains(e)) by {
        if t.contains(e) {
            let j = choose|j: int| 0 <= j < t.len() && t[j] == e;
            if j < from {
                assert(s[j] == s[from]);
            } else {
                assert(s[j + 1] == s[from]);
            }
        }
    }
    assert(t.no_duplicates()) by {
        assert forall|a: int, b: int| 0 <= a < t.len() && 0 <= b < t.len() && a != b implies t[a]
            != t[b] by {
            let sa = if a < from {
                a
            } else {
                a + 1
            };
            let sb = if b < from {
                b
            } else {
                b + 1
            };
            assert(t[a] == s[sa]);
            assert(t[b] == s[sb]);
        }
    }
    assert forall|a: int, b: int| 0 <= a < u.len() && 0 <= b < u.len() && a != b implies u[a] != u[b] by {
        if a == to {
            if b < to {
                assert(u[b] == t[b]);
            } else {
                assert(u[b] == t[b - 1]);
            }
        } else if b == to {
            if a < to {
                assert(u[a] == t[a]);
            } else {
                assert(u[a] == t[a - 1]);
            }
        } else {
            let ta = if a < to {
                a
            } else {
                a - 1
            };
            let tb = if b < to {
                b
            } else {
                b - 1
            };
            assert(u[a] == t[ta]);
            assert(u[b] == t[tb]);
        }
    }
    assert forall|x: Seq<char>| #[trigger] u.contains(x) <==> s.contains(x) by {
        if u.contains(x) {
            let j = choose|j: int| 0 <= j < u.len() && u[j] == x;
            if j == to {
                assert(s[from] == x);
            } else {
                let tj = if j < to {
                    j
                } else {
                    j - 1
                };
                assert(t[tj] == x);
                let sj = if tj < from {
                    tj
                } else {
                    tj + 1
                };
                assert(s[sj] == x);
            }
        }
        if s.contains(x) {
            let j = choose|j: int| 0 <= j < s.len() && s[j] == x;
            if j == from {
                assert(u[to] == x);
            } else {
                let tj = if j < from {
                    j
                } else {
                    j - 1
                };
                assert(t[tj] == x);
                let uj = if tj < to {
                    tj
                } else {
                    tj + 1
                };
                assert(u[uj] == x);
            }
        }
    }
}

/// In a duplicate-free sequence, `find_from` from the start finds the
/// one position holding `x`.
pub proof fn lemma_find_unique(s: Seq<Seq<char>>, x: Seq<char>, t: int)
    requires
        s.no_duplicates(),
        0 <= t < s.len(),
        s[t] == x,
    ensures
        find_from(s, x, 0) == t,
{
    lemma_find_from(s, x, 0);
}

/// Appending a name not yet present keeps a sequence duplicate-free.
pub proof fn lemma_add_name(names: Seq<Seq<char>>, n: Seq<char>)
    ensures
        names.no_duplicates() ==> add_name(names, n).no_duplicates(),
        forall|x: Seq<char>| #[trigger] add_name(names, n).contains(x) <==> (names.contains(x) || x == n),
{
    if !names.contains(n) {
        let r = names.push(n);
        assert forall|x: Seq<char>| #[trigger] r.contains(x) <==> (names.contains(x) || x == n) by {
            if r.contains(x) {
                let j = choose|j: int| 0 <= j < r.len() && r[j] == x;
                if j < names.len() {
                    assert(names[j] == x);
                }
            }
            if names.contains(x) {
                let j = choose|j: int| 0 <= j < names.len() && names[j] == x;
                assert(r[j] == x);
            }
            if x == n {
                assert(r[names.len() as int] == x);
            }
        }
        if names.no_duplicates() {
            assert forall|a: int, b: int| 0 <= a < r.len() && 0 <= b < r.len() && a != b implies r[a]
                != r[b] by {
                if a == names.len() {
                    assert(names[b] == r[b]);
                } else if b == names.len() {
                    assert(names[a] == r[a]);
                }
            }
        }
    }
}

/// A configured name: some entry's name, not blank.
pub open spec fn declared(entries: Seq<WorkspaceEntry>, x: Seq<char>) -> bool {
    exists|j: int| 0 <= j < entries.len() && !is_blank(entries[j].name@) && #[trigger] entries[j].name@ == x
}

/// A live workspace's name.
pub open spec fn is_live(live: Seq<(String, usize)>, x: Seq<char>) -> bool {
    exists|j: int| 0 <= j < live.len() && #[trigger] live[j].0@ == x
}

proof fn lemma_config_names(entries: Seq<WorkspaceEntry>, k: int)
    requires
        0 <= k <= entries.len(),
    ensures
        config_names(entries, k).no_duplicates(),
        forall|x: Seq<char>| #[trigger] config_names(entries, k).contains(x) <==> exists|j: int|
            0 <= j < k && !is_blank(entries[j].name@) && #[trigger] entries[j].name@ == x,
    decreases k,
{
    if k > 0 {
        lemma_config_names(entries, k - 1);
        lemma_add_name(config_names(entries, k - 1), entries[k - 1].name@);
        assert forall|x: Seq<char>| #[trigger] config_names(entries, k).contains(x) <==> exists|j: int|
            0 <= j < k && !is_blank(entries[j].name@) && #[trigger] entries[j].name@ == x by {
            if exists|j: int| 0 <= j < k && !is_blank(entries[j].name@) && #[trigger] entries[j].name@
                == x {
                let j = choose|j: int|
                    0 <= j < k && !is_blank(entries[j].name@) && #[trigger] entries[j].name@ == x;
                if j < k - 1 {
                    assert(config_names(entries, k - 1).contains(x));
                }
            }
        }
    } else {
        assert(config_names(entries, k) =~= Seq::<Seq<char>>::empty());
    }
}

proof fn lemma_with_live_names(base: Seq<Seq<char>>, live: Seq<(String, usize)>, k: int)
    requires
        base.no_duplicates(),
        0 <= k <= live.len(),
    ensures
        with_live_names(base, live, k).no_duplicates(),
        forall|x: Seq<char>| #[trigger] with_live_names(base, live, k).contains(x) <==> (base.contains(x)
            || exists|j: int| 0 <= j < k && #[trigger] live[j].0@ == x),
    decreases k,
{
    if k > 0 {
        lemma_with_live_names(base, live, k - 1);
        lemma_add_name(with_live_names(base, live, k - 1), live[k - 1].0@);
        assert forall|x: Seq<char>| #[trigger] with_live_names(base, live, k).contains(x) <==> (
        base.contains(x) || exists|j: int| 0 <= j < k && #[trigger] live[j].0@ == x) by {
            if exists|j: int| 0 <= j < k && #[trigger] live[j].0@ == x {
                let j = choose|j: int| 0 <= j < k && #[trigger] live[j].0@ == x;
                if j < k - 1 {
                    assert(with_live_names(base, live, k - 1).contains(x));
                }
            }
        }
    }
}

proof fn lemma_pull_front(names: Seq<Seq<char>>, order: Seq<Seq<char>>, k: int)
    requires
        names.no_duplicates(),
        0 <= k <= order.len(),
    ensures
        (pull_front(names, order, k).0 + pull_front(names, order, k).1).no_duplicates(),
        forall|x: Seq<char>|
            #[trigger] (pull_front(names, order, k).0 + pull_front(names, order, k).1).contains(x)
                <==> names.contains(x),
    decreases k,
{
    if k > 0 {
        lemma_pull_front(names, order, k - 1);
        let (p, r) = pull_front(names, order, k - 1);
        let idx = find_from(r, order[k - 1], 0);
        if idx >= 0 {
            lemma_find_from(r, order[k - 1], 0);
            let s = p + r;
            let from = p.len() + idx;
            assert(s[from] == order[k - 1]);
            lemma_move_elem(s, from, p.len() as int);
            assert(s.remove(from).insert(p.len() as int, s[from]) =~= p.push(order[k - 1]) + r.remove(
                idx,
            ));
        }
    }
}

proof fn lemma_unhidden(names: Seq<Seq<char>>, hidden: Set<Seq<char>>, k: int)
    requires
        names.no_duplicates(),
        0 <= k <= names.len(),
    ensures
        unhidden(names, hidden, k).no_duplicates(),
        forall|x: Seq<char>| #[trigger] unhidden(names, hidden, k).contains(x) <==> (
        names.take(k).contains(x) && !hidden.contains(x)),
    decreases k,
{
    if k > 0 {
        lemma_unhidden(names, hidden, k - 1);
        let prev = unhidden(names, hidden, k - 1);
        let t0 = names.take(k - 1);
        let t1 = names.take(k);
        assert(t1 =~= t0.push(names[k - 1]));
        assert forall|x: Seq<char>| t1.contains(x) <==> (t0.contains(x) || x == names[k - 1]) by {
            if t1.contains(x) {
                let j = choose|j: int| 0 <= j < t1.len() && t1[j] == x;
                if j < k - 1 {
                    assert(t0[j] == x);
                }
            }
            if t0.contains(x) {
                let j = choose|j: int| 0 <= j < t0.len() && t0[j] == x;
                assert(t1[j] == x);
            }
            if x == names[k - 1] {
                assert(t1[k - 1] == x);
            }
        }
        if !hidden.contains(names[k - 1]) {
            assert(!t0.contains(names[k - 1])) by {
                if t0.contains(names[k - 1]) {
                    let j = choose|j: int| 0 <= j < t0.len() && t0[j] == names[k - 1];
                    assert(names[j] == names[k - 1]);
                }
            }
            lemma_add_name(prev, names[k - 1]);
            assert(!prev.contains(names[k - 1]));
            assert(add_name(prev, names[k - 1]) == unhidden(names, hidden, k));
        }
    } else {
        assert(unhidden(names, hidden, k) =~= Seq::<Seq<char>>::empty());
    }
}

/// The sidebar lists each workspace once, and lists exactly the
/// configured (non-blank) and live workspaces that are not hidden,
/// whatever the explicit order says.
pub proof fn lemma_shown_names(
    entries: Seq<WorkspaceEntry>,
    live: Seq<(String, usize)>,
    order: Seq<Seq<char>>,
    hidden: Set<Seq<char>>,
)
    ensures
        shown_names(entries, live, order, hidden).no_duplicates(),
        forall|x: Seq<char>| #[trigger] shown_names(entries, live, order, hidden).contains(x) <==> (
        !hidden.contains(x) && (declared(entries, x) || is_live(live, x))),
{
    let base = config_names(entries, entries.len() as int);
    lemma_config_names(entries, entries.len() as int);
    lemma_with_live_names(base, live, live.len() as int);
    let natural = natural_names(entries, live);
    lemma_pull_front(natural, order, order.len() as int);
    let ordered = apply_order(natural, order);
    lemma_unhidden(ordered, hidden, ordered.len() as int);
    assert(ordered.take(ordered.len() as int) =~= ordered);
}


/// The explicit order a move starts from holds every current name and
/// every name the old order held.
pub proof fn lemma_materialized_contains(current: Seq<Seq<char>>, order: Seq<Seq<char>>)
    ensures
        forall|x: Seq<char>| #[trigger] materialized(current, order).contains(x) <==> (current.contains(x)
            || order.contains(x)),
{
    let base = if order.len() == 0 {
        current
    } else {
        order
    };
    lemma_append_missing(base, current, current.len() as int);
    assert forall|x: Seq<char>| #[trigger] materialized(current, order).contains(x) <==> (
    current.contains(x) || order.contains(x)) by {
        if current.contains(x) {
            let j = choose|j: int| 0 <= j < current.len() && current[j] == x;
            assert(current.take(current.len() as int)[j] == x);
        }
        if materialized(current, order).contains(x) && !base.contains(x) {
            let j = choose|j: int| 0 <= j < current.len() && #[trigger] current[j] == x;
            assert(current[j] == x);
        }
    }
}

proof fn lemma_append_missing(base: Seq<Seq<char>>, current: Seq<Seq<char>>, k: int)
    requires
        0 <= k <= current.len(),
    ensures
        base.no_duplicates() ==> append_missing(base, current, k).no_duplicates(),
        forall|x: Seq<char>| #[trigger] append_missing(base, current, k).contains(x) <==> (base.contains(x)
            || exists|j: int| 0 <= j < k && #[trigger] current[j] == x),
        (forall|j: int| 0 <= j < k ==> base.contains(#[trigger] current[j])) ==> append_missing(
            base,
            current,
            k,
        ) == base,
    decreases k,
{
    if k > 0 {
        lemma_append_missing(base, current, k - 1);
        lemma_add_name(append_missing(base, current, k - 1), current[k - 1]);
        assert forall|x: Seq<char>| #[trigger] append_missing(base, current, k).contains(x) <==> (
        base.contains(x) || exists|j: int| 0 <= j < k && #[trigger] current[j] == x) by {
            if exists|j: int| 0 <= j < k && #[trigger] current[j] == x {
                let j = choose|j: int| 0 <= j < k && #[trigger] current[j] == x;
                if j < k - 1 {
                    assert(append_missing(base, current, k - 1).contains(x));
                }
            }
        }
    }
}

/// Moving a workspace keeps the order's names: when the explicit order
/// it starts from lists each name once, so does the result, with the
/// same names.
pub proof fn lemma_move_keeps_names(current: Seq<Seq<char>>, order: Seq<Seq<char>>, name: Seq<char>, delta: int)
    requires
        materialized(current, order).no_duplicates(),
    ensures
        moved(materialized(current, order), name, delta).no_duplicates(),
        moved(materialized(current, order), name, delta).len() == materialized(current, order).len(),
        forall|x: Seq<char>| #[trigger] moved(materialized(current, order), name, delta).contains(x)
            <==> (current.contains(x) || order.contains(x)),
{
    let m = materialized(current, order);
    lemma_materialized_contains(current, order);
    let idx = find_from(m, name, 0);
    lemma_find_from(m, name, 0);
    if idx >= 0 {
        lemma_move_elem(m, idx, clamp(idx + delta, 0, m.len() - 1));
    }
}

/// Moving a workspace by `delta` and then by `-delta` restores the
/// order, when it occurs once and the first move was not stopped at an
/// end of the list; the second move starts from the first one's result
/// as it is, and finds the name `delta` places further on, so it may
/// move by `-delta` whenever the name's first position fits `isize`.
pub proof fn lemma_move_then_back(current: Seq<Seq<char>>, order: Seq<Seq<char>>, name: Seq<char>, delta: int)
    requires
        materialized(current, order).no_duplicates(),
        materialized(current, order).contains(name),
        0 <= find_from(materialized(current, order), name, 0) + delta < materialized(current, order).len(),
    ensures
        materialized(current, moved(materialized(current, order), name, delta)) == moved(
            materialized(current, order),
            name,
            delta,
        ),
        moved(moved(materialized(current, order), name, delta), name, -delta) == materialized(
            current,
            order,
        ),
        find_from(materialized(current, moved(materialized(current, order), name, delta)), name, 0)
            - delta == find_from(materialized(current, order), name, 0),
{
    let m = materialized(current, order);
    lemma_materialized_contains(current, order);
    lemma_find_from(m, name, 0);
    let idx = find_from(m, name, 0);
    let t = idx + delta;
    lemma_move_elem(m, idx, t);
    let m2 = moved(m, name, delta);
    assert(m2 == m.remove(idx).insert(t, m[idx]));
    // the second materialization changes nothing
    assert(m2.len() > 0);
    assert forall|j: int| 0 <= j < current.len() implies m2.contains(#[trigger] current[j]) by {
        assert(current.contains(current[j]));
    }
    lemma_append_missing(m2, current, current.len() as int);
    // the name now sits at `t`
    assert(m2[t] == name);
    lemma_find_unique(m2, name, t);
    assert(m2.remove(t) =~= m.remove(idx));
    assert(m.remove(idx).insert(idx, m[idx]) =~= m);
}

proof fn lemma_take_step(s: Seq<Seq<char>>, k: int)
    requires
        0 < k <= s.len(),
    ensures
        forall|x: Seq<char>| #[trigger] s.take(k).contains(x) <==> (s.take(k - 1).contains(x) || x
            == s[k - 1]),
{
    let t0 = s.take(k - 1);
    let t1 = s.take(k);
    assert forall|x: Seq<char>| #[trigger] t1.contains(x) <==> (t0.contains(x) || x == s[k - 1]) by {
        if t1.contains(x) {
            let j = choose|j: int| 0 <= j < t1.len() && t1[j] == x;
            if j < k - 1 {
                assert(t0[j] == x);
            }
        }
        if t0.contains(x) {
            let j = choose|j: int| 0 <= j < t0.len() && t0[j] == x;
            assert(t1[j] == x);
        }
        if x == s[k - 1] {
            assert(t1[k - 1] == x);
        }
    }
}

proof fn lemma_first_at(s: Seq<Seq<char>>, x: Seq<char>, k: int)
    requires
        0 <= k < s.len(),
        s[k] == x,
        !s.take(k).contains(x),
    ensures
        find_from(s, x, 0) == k,
{
    lemma_find_from(s, x, 0);
    let f = find_from(s, x, 0);
    if 0 <= f < k {
        assert(s.take(k)[f] == x);
    }
}

proof fn lemma_found_before(s: Seq<Seq<char>>, x: Seq<char>, k: int)
    requires
        0 <= k <= s.len(),
        s.take(k).contains(x),
    ensures
        0 <= find_from(s, x, 0) < k,
{
    lemma_find_from(s, x, 0);
    let j = choose|j: int| 0 <= j < k && s.take(k)[j] == x;
    assert(s[j] == x);
}

proof fn lemma_pull_front_order(names: Seq<Seq<char>>, order: Seq<Seq<char>>, k: int)
    requires
        names.no_duplicates(),
        0 <= k <= order.len(),
    ensures
        forall|x: Seq<char>| #[trigger] pull_front(names, order, k).0.contains(x) <==> (names.contains(x)
            && order.take(k).contains(x)),
        forall|x: Seq<char>| #[trigger] pull_front(names, order, k).1.contains(x) <==> (names.contains(x)
            && !order.take(k).contains(x)),
        forall|i: int, j: int|
            0 <= i < j < pull_front(names, order, k).0.len() ==> find_from(
                order,
                #[trigger] pull_front(names, order, k).0[i],
                0,
            ) < find_from(order, #[trigger] pull_front(names, order, k).0[j], 0),
        forall|i: int, j: int|
            0 <= i < j < pull_front(names, order, k).1.len() ==> find_from(
                names,
                #[trigger] pull_front(names, order, k).1[i],
                0,
            ) < find_from(names, #[trigger] pull_front(names, order, k).1[j], 0),
    decreases k,
{
    if k == 0 {
        assert(order.take(0) =~= Seq::<Seq<char>>::empty());
        assert forall|i: int, j: int| 0 <= i < j < names.len() implies find_from(
            names,
            names[i],
            0,
        ) < find_from(names, names[j], 0) by {
            lemma_find_unique(names, names[i], i);
            lemma_find_unique(names, names[j], j);
        }
    } else {
        lemma_pull_front_order(names, order, k - 1);
        lemma_take_step(order, k);
        let (p, r) = pull_front(names, order, k - 1);
        let o = order[k - 1];
        let idx = find_from(r, o, 0);
        lemma_find_from(r, o, 0);
        assert forall|a: int, b: int| 0 <= a < r.len() && 0 <= b < r.len() && a != b implies r[a]
            != r[b] by {
            if a < b {
                assert(find_from(names, r[a], 0) < find_from(names, r[b], 0));
            } else {
                assert(find_from(names, r[b], 0) < find_from(names, r[a], 0));
            }
        }
        if idx >= 0 {
            let p2 = p.push(o);
            let r2 = r.remove(idx);
            assert(r.contains(o)) by {
                assert(r[idx] == o);
            }
            assert(!order.take(k - 1).contains(o));
            lemma_first_at(order, o, k - 1);
            assert forall|x: Seq<char>| #[trigger] r2.contains(x) <==> (r.contains(x) && x != o) by {
                if r2.contains(x) {
                    let j = choose|j: int| 0 <= j < r2.len() && r2[j] == x;
                    if j < idx {
                        assert(r[j] == x);
                    } else {
                        assert(r[j + 1] == x);
                    }
                }
                if r.contains(x) && x != o {
                    let j = choose|j: int| 0 <= j < r.len() && r[j] == x;
                    if j < idx {
                        assert(r2[j] == x);
                    } else {
                        assert(r2[j - 1] == x);
                    }
                }
            }
            assert forall|x: Seq<char>| #[trigger] p2.contains(x) <==> (p.contains(x) || x == o) by {
                if p2.contains(x) {
                    let j = choose|j: int| 0 <= j < p2.len() && p2[j] == x;
                    if j < p.len() {
                        assert(p[j] == x);
                    }
                }
                if p.contains(x) {
                    let j = choose|j: int| 0 <= j < p.len() && p[j] == x;
                    assert(p2[j] == x);
                }
                if x == o {
                    assert(p2[p.len() as int] == x);
                }
            }
            assert forall|i: int, j: int| 0 <= i < j < p2.len() implies find_from(order, p2[i], 0)
                < find_from(order, p2[j], 0) by {
                if j == p.len() {
                    assert(p2[i] == p[i]);
                    assert(p.contains(p[i]));
                    lemma_found_before(order, p[i], k - 1);
                } else {
                    assert(p2[i] == p[i] && p2[j] == p[j]);
                }
            }
            assert forall|i: int, j: int| 0 <= i < j < r2.len() implies find_from(names, r2[i], 0)
                < find_from(names, r2[j], 0) by {
                let a = if i < idx {
                    i
                } else {
                    i + 1
                };
                let b = if j < idx {
                    j
                } else {
                    j + 1
                };
                assert(r2[i] == r[a]);
                assert(r2[j] == r[b]);
            }
        } else {
            assert(!r.contains(o));
            assert forall|x: Seq<char>| #[trigger] p.contains(x) <==> (names.contains(x)
                && order.take(k).contains(x)) by {
                if x == o && names.contains(x) && !order.take(k - 1).contains(x) {
                    assert(r.contains(x));
                }
            }
        }
    }
}

proof fn lemma_unhidden_order(names: Seq<Seq<char>>, hidden: Set<Seq<char>>, k: int)
    requires
        names.no_duplicates(),
        0 <= k <= names.len(),
    ensures
        forall|i: int|
            0 <= i < unhidden(names, hidden, k).len() ==> 0 <= find_from(
                names,
                #[trigger] unhidden(names, hidden, k)[i],
                0,
            ) < k && names[find_from(names, unhidden(names, hidden, k)[i], 0)] == unhidden(
                names,
                hidden,
                k,
            )[i],
        forall|i: int, j: int|
            0 <= i < j < unhidden(names, hidden, k).len() ==> find_from(
                names,
                #[trigger] unhidden(names, hidden, k)[i],
                0,
            ) < find_from(names, #[trigger] unhidden(names, hidden, k)[j], 0),
    decreases k,
{
    if k > 0 {
        lemma_unhidden_order(names, hidden, k - 1);
        let u = unhidden(names, hidden, k - 1);
        if !hidden.contains(names[k - 1]) {
            let u2 = u.push(names[k - 1]);
            lemma_find_unique(names, names[k - 1], k - 1);
            assert(u2 == unhidden(names, hidden, k));
            assert forall|i: int| 0 <= i < u2.len() implies 0 <= find_from(names, u2[i], 0) < k
                && names[find_from(names, u2[i], 0)] == u2[i] by {
                if i < u.len() {
                    assert(u2[i] == u[i]);
                }
            }
            assert forall|i: int, j: int| 0 <= i < j < u2.len() implies find_from(names, u2[i], 0)
                < find_from(names, u2[j], 0) by {
                assert(u2[i] == u[i]);
                if j < u.len() {
                    assert(u2[j] == u[j]);
                }
            }
        }
    }
}

/// Among the names the sidebar lists, those the explicit order names
/// come first, in the explicit order's order; the others follow in
/// their natural order (configured ones first, then live-only ones).
pub proof fn lemma_shown_order(
    entries: Seq<WorkspaceEntry>,
    live: Seq<(String, usize)>,
    order: Seq<Seq<char>>,
    hidden: Set<Seq<char>>,
)
    ensures
        forall|i: int, j: int|
            0 <= i < j < shown_names(entries, live, order, hidden).len() && order.contains(
                #[trigger] shown_names(entries, live, order, hidden)[j],
            ) ==> order.contains(#[trigger] shown_names(entries, live, order, hidden)[i]),
        forall|i: int, j: int|
            0 <= i < j < shown_names(entries, live, order, hidden).len() && order.contains(
                #[trigger] shown_names(entries, live, order, hidden)[i],
            ) && order.contains(#[trigger] shown_names(entries, live, order, hidden)[j])
                ==> find_from(order, shown_names(entries, live, order, hidden)[i], 0) < find_from(
                order,
                shown_names(entries, live, order, hidden)[j],
                0,
            ),
        forall|i: int, j: int|
            0 <= i < j < shown_names(entries, live, order, hidden).len() && !order.contains(
                #[trigger] shown_names(entries, live, order, hidden)[i],
            ) && !order.contains(#[trigger] shown_names(entries, live, order, hidden)[j])
                ==> find_from(natural_names(entries, live), shown_names(entries, live, order, hidden)[i], 0)
                < find_from(natural_names(entries, live), shown_names(entries, live, order, hidden)[j], 0),
{
    let base = config_names(entries, entries.len() as int);
    lemma_config_names(entries, entries.len() as int);
    lemma_with_live_names(base, live, live.len() as int);
    let natural = natural_names(entries, live);
    lemma_pull_front(natural, order, order.len() as int);
    lemma_pull_front_order(natural, order, order.len() as int);
    assert(order.take(order.len() as int) =~= order);
    let (p, r) = pull_front(natural, order, order.len() as int);
    let ordered = p + r;
    let m = p.len() as int;
    lemma_unhidden_order(ordered, hidden, ordered.len() as int);
    let s = shown_names(entries, live, order, hidden);
    assert(s == unhidden(ordered, hidden, ordered.len() as int));
    assert forall|i: int, j: int| 0 <= i < j < s.len() implies {
        &&& (order.contains(s[j]) ==> order.contains(s[i]))
        &&& (order.contains(s[i]) && order.contains(s[j]) ==> find_from(order, s[i], 0) < find_from(
            order,
            s[j],
            0,
        ))
        &&& (!order.contains(s[i]) && !order.contains(s[j]) ==> find_from(natural, s[i], 0)
            < find_from(natural, s[j], 0))
    } by {
        let a = find_from(ordered, s[i], 0);
        let b = find_from(ordered, s[j], 0);
        assert(a < b);
        assert(ordered[a] == s[i]);
        assert(ordered[b] == s[j]);
        if a < m {
            assert(p[a] == s[i]);
            assert(p.contains(s[i]));
        } else {
            assert(r[a - m] == s[i]);
            assert(r.contains(s[i]));
        }
        if b < m {
            assert(p[b] == s[j]);
            assert(p.contains(s[j]));
        } else {
            assert(r[b - m] == s[j]);
            assert(r.contains(s[j]));
        }
        if m <= a {
            assert(find_from(natural, r[a - m], 0) < find_from(natural, r[b - m], 0));
        }
        if b < m {
            assert(find_from(order, p[a], 0) < find_from(order, p[b], 0));
        }
    }
}

/// `lines` show the command `c`: one of them reads `$ ` then `c`, and
/// every line starting with `$` is that one.
pub open spec fn shows_command(lines: Seq<Seq<char>>, c: Seq<char>) -> bool {
    &&& exists|i: int| 0 <= i < lines.len() && #[trigger] lines[i] == seq!['$', ' '] + c
    &&& forall|i: int|
        0 <= i < lines.len() && (#[trigger] lines[i]).len() > 0 && lines[i][0] == '$' ==> lines[i]
            == seq!['$', ' '] + c
}

/// No line of `lines` starts with `$`: no command is shown.
pub open spec fn shows_no_command(lines: Seq<Seq<char>>) -> bool {
    forall|i: int| 0 <= i < lines.len() ==> (#[trigger] lines[i]).len() == 0 || lines[i][0] != '$'
}

proof fn lemma_subtitle_command(dir: Option<Seq<char>>, cmd: Option<Seq<char>>, prof: Option<Seq<char>>)
    ensures
        cmd is Some ==> shows_command(subtitle_spec(dir, cmd, prof), cmd.unwrap()),
        cmd is None ==> shows_no_command(subtitle_spec(dir, cmd, prof)),
{
    let a = marked_line(dir_marker(), dir);
    let b = marked_line(command_marker(), cmd);
    let c = marked_line(profile_marker(), prof);
    let lines = subtitle_spec(dir, cmd, prof);
    assert(lines == a + b + c);
    assert forall|i: int| 0 <= i < lines.len() && lines[i].len() > 0 && lines[i][0] == '$' implies cmd
        is Some && lines[i] == seq!['$', ' '] + cmd.unwrap() by {
        if i < a.len() {
            assert(lines[i] == a[i]);
            assert(a[i] == dir_marker() + dir.unwrap());
            assert(lines[i][0] == '\u{25b8}');
        } else if i < a.len() + b.len() {
            assert(lines[i] == b[i - a.len()]);
            assert(b[i - a.len()] == command_marker() + cmd.unwrap());
        } else {
            assert(lines[i] == c[i - a.len() - b.len()]);
            assert(c[i - a.len() - b.len()] == profile_marker() + prof.unwrap());
            assert(lines[i][0] == '\u{25c6}');
        }
    }
    if cmd is Some {
        let k = a.len() as int;
        assert(lines[k] == b[0]);
        assert(command_marker() + cmd.unwrap() =~= seq!['$', ' '] + cmd.unwrap());
    }
}

/// A listed workspace's subtitle shows its effective default command on
/// a `$ ` line, and no other: a runtime override that is not blank wins
/// over the configuration; without one, the command of the first
/// configuration entry declaring the workspace shows when it is not
/// blank; otherwise no command line shows.
pub proof fn lemma_entry_command_line(
    e: SidebarEntry,
    n: Seq<char>,
    entries: Seq<WorkspaceEntry>,
    live: Seq<(String, usize)>,
    metadata: Map<Seq<char>, WorkspaceMetadata>,
)
    requires
        describes(e, n, entries, live, metadata),
    ensures
        metadata.contains_key(n) && metadata[n].default_command is Some && !is_blank(
            metadata[n].default_command.unwrap()@,
        ) ==> shows_command(views(e.subtitle_lines@), metadata[n].default_command.unwrap()@),
        forall|j: int|
            #![trigger first_declaring(entries, n, j)]
            first_declaring(entries, n, j) && !(metadata.contains_key(n)
                && metadata[n].default_command is Some && !is_blank(
                metadata[n].default_command.unwrap()@,
            )) ==> if entries[j].default_command is Some && !is_blank(
                entries[j].default_command.unwrap()@,
            ) {
                shows_command(views(e.subtitle_lines@), entries[j].default_command.unwrap()@)
            } else {
                shows_no_command(views(e.subtitle_lines@))
            },
        undeclared(entries, n) && !(metadata.contains_key(n) && metadata[n].default_command is Some
            && !is_blank(metadata[n].default_command.unwrap()@)) ==> shows_no_command(
            views(e.subtitle_lines@),
        ),
{
    let meta = meta_for(metadata, n);
    let base = choose|base: Option<Seq<char>>|
        dir_base_facts(resolved_cwd(meta, entries, n), base) && views(e.subtitle_lines@)
            == #[trigger] subtitle_spec(
            base,
            opt_view(resolved_command(meta, entries, n)),
            profile_display(meta),
        );
    lemma_command_resolution(meta, entries, n);
    lemma_subtitle_command(base, opt_view(resolved_command(meta, entries, n)), profile_display(meta));
}

/// A listed workspace shows a tab count exactly when it is live, and
/// then the count of the first live workspace of that name.
pub proof fn lemma_entry_tab_count(
    e: SidebarEntry,
    n: Seq<char>,
    entries: Seq<WorkspaceEntry>,
    live: Seq<(String, usize)>,
    metadata: Map<Seq<char>, WorkspaceMetadata>,
)
    requires
        describes(e, n, entries, live, metadata),
    ensures
        e.name@ == n,
        e.tab_count is Some <==> is_live(live, n),
        forall|j: int|
            0 <= j < live.len() && #[trigger] live[j].0@ == n && (forall|k: int|
                0 <= k < j ==> live[k].0@ != n) ==> e.tab_count == Some(live[j].1),
{
    lemma_live_count_from(live, n, 0);
}

proof fn lemma_live_count_from(live: Seq<(String, usize)>, n: Seq<char>, i: int)
    requires
        0 <= i <= live.len(),
    ensures
        live_count_from(live, n, i) is Some <==> exists|j: int| i <= j < live.len() && #[trigger] live[j].0@
            == n,
        forall|j: int|
            i <= j < live.len() && #[trigger] live[j].0@ == n && (forall|k: int|
                i <= k < j ==> live[k].0@ != n) ==> live_count_from(live, n, i) == Some(live[j].1),
    decreases live.len() - i,
{
    if i < live.len() {
        lemma_live_count_from(live, n, i + 1);
        if live[i].0@ != n {
            assert forall|j: int|
                i <= j < live.len() && #[trigger] live[j].0@ == n && (forall|k: int|
                    i <= k < j ==> live[k].0@ != n) implies live_count_from(live, n, i) == Some(
                live[j].1,
            ) by {
                assert(j != i);
            }
        } else {
            assert forall|j: int|
                i <= j < live.len() && #[trigger] live[j].0@ == n && (forall|k: int|
                    i <= k < j ==> live[k].0@ != n) implies live_count_from(live, n, i) == Some(
                live[j].1,
            ) by {
                if j > i {
                    assert(live[i].0@ != n);
                }
            }
        }
    }
}

/// `lines` hold `line`, and every line starting with `first` is it.
pub open spec fn shows_line(lines: Seq<Seq<char>>, first: char, line: Seq<char>) -> bool {
    &&& exists|i: int| 0 <= i < lines.len() && #[trigger] lines[i] == line
    &&& forall|i: int|
        0 <= i < lines.len() && (#[trigger] lines[i]).len() > 0 && lines[i][0] == first ==> lines[i]
            == line
}

/// No line of `lines` starts with `first`.
pub open spec fn shows_no_line(lines: Seq<Seq<char>>, first: char) -> bool {
    forall|i: int| 0 <= i < lines.len() ==> (#[trigger] lines[i]).len() == 0 || lines[i][0] != first
}

proof fn lemma_subtitle_marked(dir: Option<Seq<char>>, cmd: Option<Seq<char>>, prof: Option<Seq<char>>)
    ensures
        dir is Some ==> shows_line(subtitle_spec(dir, cmd, prof), '\u{25b8}', seq!['\u{25b8}', ' '] + dir.unwrap()),
        dir is None ==> shows_no_line(subtitle_spec(dir, cmd, prof), '\u{25b8}'),
        prof is Some ==> shows_line(subtitle_spec(dir, cmd, prof), '\u{25c6}', seq!['\u{25c6}', ' '] + prof.unwrap()),
        prof is None ==> shows_no_line(subtitle_spec(dir, cmd, prof), '\u{25c6}'),
{
    let a = marked_line(dir_marker(), dir);
    let b = marked_line(command_marker(), cmd);
    let c = marked_line(profile_marker(), prof);
    let lines = subtitle_spec(dir, cmd, prof);
    assert(lines == a + b + c);
    assert forall|i: int| 0 <= i < lines.len() implies {
        &&& lines[i].len() > 0
        &&& (lines[i][0] == '\u{25b8}' ==> dir is Some && lines[i] == seq!['\u{25b8}', ' '] + dir.unwrap())
        &&& (lines[i][0] == '\u{25c6}' ==> prof is Some && lines[i] == seq!['\u{25c6}', ' '] + prof.unwrap())
    } by {
        if i < a.len() {
            assert(lines[i] == a[i]);
            assert(a[i] == dir_marker() + dir.unwrap());
            assert(lines[i][0] == '\u{25b8}');
            assert(dir_marker() + dir.unwrap() =~= seq!['\u{25b8}', ' '] + dir.unwrap());
        } else if i < a.len() + b.len() {
            assert(lines[i] == b[i - a.len()]);
            assert(b[i - a.len()] == command_marker() + cmd.unwrap());
            assert(lines[i][0] == '$');
        } else {
            assert(lines[i] == c[i - a.len() - b.len()]);
            assert(c[i - a.len() - b.len()] == profile_marker() + prof.unwrap());
            assert(lines[i][0] == '\u{25c6}');
            assert(profile_marker() + prof.unwrap() =~= seq!['\u{25c6}', ' '] + prof.unwrap());
        }
    }
    if dir is Some {
        assert(lines[0] == a[0]);
        assert(dir_marker() + dir.unwrap() =~= seq!['\u{25b8}', ' '] + dir.unwrap());
    }
    if prof is Some {
        let k = (a.len() + b.len()) as int;
        assert(lines[k] == c[0]);
        assert(profile_marker() + prof.unwrap() =~= seq!['\u{25c6}', ' '] + prof.unwrap());
    }
}

/// A listed workspace's subtitle shows its launch profile on a `◆ `
/// line, and no other: the bare domain name when the profile names a
/// domain by name, else the label it was chosen under, else its program
/// and arguments joined by spaces; no profile line shows without a
/// runtime profile or when none of these is there.
pub proof fn lemma_entry_profile_line(
    e: SidebarEntry,
    n: Seq<char>,
    entries: Seq<WorkspaceEntry>,
    live: Seq<(String, usize)>,
    metadata: Map<Seq<char>, WorkspaceMetadata>,
)
    requires
        describes(e, n, entries, live, metadata),
    ensures
        !(metadata.contains_key(n) && metadata[n].profile is Some) ==> shows_no_line(
            views(e.subtitle_lines@),
            '\u{25c6}',
        ),
        metadata.contains_key(n) && metadata[n].profile is Some
            && metadata[n].profile.unwrap().domain is DomainName ==> shows_line(
            views(e.subtitle_lines@),
            '\u{25c6}',
            seq!['\u{25c6}', ' '] + metadata[n].profile.unwrap().domain->DomainName_0@,
        ),
        metadata.contains_key(n) && metadata[n].profile is Some
            && !(metadata[n].profile.unwrap().domain is DomainName) && metadata[n].profile_label is Some
            ==> shows_line(
            views(e.subtitle_lines@),
            '\u{25c6}',
            seq!['\u{25c6}', ' '] + metadata[n].profile_label.unwrap()@,
        ),
        metadata.contains_key(n) && metadata[n].profile is Some
            && !(metadata[n].profile.unwrap().domain is DomainName) && metadata[n].profile_label is None
            && metadata[n].profile.unwrap().args is Some
            && metadata[n].profile.unwrap().args.unwrap()@.len() > 0 ==> shows_line(
            views(e.subtitle_lines@),
            '\u{25c6}',
            seq!['\u{25c6}', ' '] + crate::text::join_spaces(
                views(metadata[n].profile.unwrap().args.unwrap()@),
            ),
        ),
        metadata.contains_key(n) && metadata[n].profile is Some
            && !(metadata[n].profile.unwrap().domain is DomainName) && metadata[n].profile_label is None
            && (metadata[n].profile.unwrap().args is None
            || metadata[n].profile.unwrap().args.unwrap()@.len() == 0) ==> shows_no_line(
            views(e.subtitle_lines@),
            '\u{25c6}',
        ),
{
    let meta = meta_for(metadata, n);
    let base = choose|base: Option<Seq<char>>|
        dir_base_facts(resolved_cwd(meta, entries, n), base) && views(e.subtitle_lines@)
            == #[trigger] subtitle_spec(
            base,
            opt_view(resolved_command(meta, entries, n)),
            profile_display(meta),
        );
    lemma_subtitle_marked(base, opt_view(resolved_command(meta, entries, n)), profile_display(meta));
}

/// A listed workspace's subtitle shows the basename of its effective
/// default directory on a `▸ ` line, and no other: the runtime override
/// wins over the directory of the first configuration entry declaring
/// the workspace; without either, no directory line shows. A directory
/// that is a single plain path component is its own basename.
pub proof fn lemma_entry_directory_line(
    e: SidebarEntry,
    n: Seq<char>,
    entries: Seq<WorkspaceEntry>,
    live: Seq<(String, usize)>,
    metadata: Map<Seq<char>, WorkspaceMetadata>,
)
    requires
        describes(e, n, entries, live, metadata),
    ensures
        metadata.contains_key(n) && metadata[n].cwd is Some && plain_component(
            metadata[n].cwd.unwrap()@,
        ) ==> shows_line(
            views(e.subtitle_lines@),
            '\u{25b8}',
            seq!['\u{25b8}', ' '] + metadata[n].cwd.unwrap()@,
        ),
        forall|j: int|
            #![trigger first_declaring(entries, n, j)]
            first_declaring(entries, n, j) && !(metadata.contains_key(n) && metadata[n].cwd is Some) ==> {
                &&& entries[j].cwd is None ==> shows_no_line(views(e.subtitle_lines@), '\u{25b8}')
                &&& entries[j].cwd is Some && plain_component(entries[j].cwd.unwrap()@) ==> shows_line(
                    views(e.subtitle_lines@),
                    '\u{25b8}',
                    seq!['\u{25b8}', ' '] + entries[j].cwd.unwrap()@,
                )
            },
        undeclared(entries, n) && !(metadata.contains_key(n) && metadata[n].cwd is Some)
            ==> shows_no_line(views(e.subtitle_lines@), '\u{25b8}'),
{
    let meta = meta_for(metadata, n);
    let base = choose|base: Option<Seq<char>>|
        dir_base_facts(resolved_cwd(meta, entries, n), base) && views(e.subtitle_lines@)
            == #[trigger] subtitle_spec(
            base,
            opt_view(resolved_command(meta, entries, n)),
            profile_display(meta),
        );
    lemma_cwd_resolution(meta, entries, n);
    lemma_subtitle_marked(base, opt_view(resolved_command(meta, entries, n)), profile_display(meta));
}

} // verus!
