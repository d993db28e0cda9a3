//! Application state rules: theme, toasts, the recent-steps log, variables
//! typed in the settings page, mock match rows and keyboard shortcuts.

use vstd::prelude::*;
use crate::codec::pair_views;
use crate::lines::{lines_of, lines_spec};
use crate::string_map::{entries_map, StringMap};
use crate::text::{
    chars_of, replace_char, replace_char_vec, str_eq, string_of, sub_vec, trim, trim_bounds, trim_str,
};
use crate::client::{find_char, find_char_vec};

verus! {

/// Follow the system theme.
pub const AUTO: &'static str = "auto";

/// Dark theme.
pub const DARK: &'static str = "dark";

/// Light theme.
pub const LIGHT: &'static str = "light";

/// Whether `mode` is one of the themes.
pub fn valid_theme(mode: &str) -> (r: bool)
    ensures
        r == (mode@ == AUTO@ || mode@ == DARK@ || mode@ == LIGHT@),
{
    str_eq(mode, AUTO) || str_eq(mode, DARK) || str_eq(mode, LIGHT)
}

/// Kind of a toast message.
#[derive(PartialEq, Eq, Structural, Clone, Copy, Debug)]
pub enum ToastKind {
    Success,
    Error,
    Info,
}

impl ToastKind {
    /// CSS class of the toast.
    pub fn css_class(&self) -> (r: &'static str)
        ensures
            r@ == match self {
                ToastKind::Success => "rf-toast-success"@,
                ToastKind::Error => "rf-toast-error"@,
                ToastKind::Info => "rf-toast-info"@,
            },
    {
        match self {
            ToastKind::Success => "rf-toast-success",
            ToastKind::Error => "rf-toast-error",
            ToastKind::Info => "rf-toast-info",
        }
    }
}

/// A toast message.
pub struct Toast {
    pub id: u64,
    pub kind: ToastKind,
    pub message: String,
}

/// Toasts whose id is not `id`.
pub open spec fn without_toast(ts: Seq<Toast>, id: u64) -> Seq<Toast>
    decreases ts.len(),
{
    if ts.len() == 0 {
        Seq::empty()
    } else {
        let r = without_toast(ts.drop_last(), id);
        if ts.last().id == id {
            r
        } else {
            r.push(ts.last())
        }
    }
}

/// Dismiss the toast with this id (after its display time).
pub fn dismiss_toast(toasts: &mut Vec<Toast>, id: u64)
    ensures
        final(toasts)@ == without_toast(old(toasts)@, id),
{
    let ghost t0 = toasts@;
    let mut kept: Vec<Toast> = Vec::new();
    let n = toasts.len();
    let mut i: usize = 0;
    while i < n
        invariant
            t0 == toasts@,
            n == t0.len(),
            i <= n,
            kept@ == without_toast(t0.take(i as int), id),
        decreases n - i,
    {
        assert(t0.take(i + 1).drop_last() =~= t0.take(i as int));
        let t = &toasts[i];
        if t.id != id {
            kept.push(Toast { id: t.id, kind: t.kind, message: t.message.clone() });
        }
        i = i + 1;
    }
    assert(t0.take(n as int) =~= t0);
    *toasts = kept;
}

/// The name a new project gets: the text trimmed; a blank name is refused.
pub fn new_project_name(name: &str) -> (r: Result<String, String>)
    ensures
        match r {
            Ok(n) => trim(name@).len() > 0 && n@ == trim(name@),
            Err(m) => trim(name@).len() == 0 && m@ == "项目名称不能为空"@,
        },
{
    let t = trim_str(name);
    if t.as_str().unicode_len() == 0 {
        Err("项目名称不能为空".to_owned())
    } else {
        Ok(t)
    }
}

/// File name stem of a project's Markdown export: the name trimmed, with
/// `/`, `:`, `\\` and spaces turned into `_`.
pub open spec fn export_stem_spec(name: Seq<char>) -> Seq<char> {
    replace_char(
        replace_char(replace_char(replace_char(trim(name), '/', '_'), ':', '_'), '\\', '_'),
        ' ',
        '_',
    )
}

/// File name stem of a project's Markdown export.
pub fn export_file_stem(name: &str) -> (r: String)
    ensures
        r@ == export_stem_spec(name@),
{
    let all = chars_of(name);
    let (a, b) = trim_bounds(&all);
    let t = sub_vec(&all, a, b);
    let v1 = replace_char_vec(&t, '/', '_');
    let v2 = replace_char_vec(&v1, ':', '_');
    let v3 = replace_char_vec(&v2, '\\', '_');
    let v4 = replace_char_vec(&v3, ' ', '_');
    string_of(&v4)
}

/// Most steps kept.
pub const MAX_STEPS: usize = 60;

/// Steps after recording `msg`: appended, oldest dropped beyond the limit.
pub open spec fn push_step_spec(steps: Seq<String>, msg: String) -> Seq<String> {
    let s = steps.push(msg);
    if s.len() > MAX_STEPS {
        s.skip(s.len() - MAX_STEPS)
    } else {
        s
    }
}

/// Record a user step, keeping the most recent ones.
pub fn push_step(steps: &mut Vec<String>, msg: String)
    ensures
        final(steps)@ == push_step_spec(old(steps)@, msg),
{
    let ghost s = old(steps)@.push(msg);
    steps.push(msg);
    if steps.len() > MAX_STEPS {
        let drop_count = steps.len() - MAX_STEPS;
        let mut kept: Vec<String> = Vec::new();
        let mut i = drop_count;
        while i < steps.len()
            invariant
                steps@ == s,
                drop_count <= i <= s.len(),
                kept@ == s.subrange(drop_count as int, i as int),
            decreases steps.len() - i,
        {
            kept.push(steps[i].clone());
            assert(s.subrange(drop_count as int, i + 1) == s.subrange(drop_count as int, i as int).push(s[i as int]));
            i = i + 1;
        }
        assert(kept@ =~= s.skip(drop_count as int));
        *steps = kept;
    }
}

/// The step log never grows past the limit, and the step just recorded is
/// its newest entry.
pub proof fn law_steps_bounded(steps: Seq<String>, msg: String)
    ensures
        push_step_spec(steps, msg).len() <= MAX_STEPS,
        push_step_spec(steps, msg).last() == msg,
{
}

/// Variables from editor rows: rows with a blank name are skipped, names are
/// trimmed, values kept (even empty); a later row wins.
pub open spec fn var_rows(rows: Seq<(Seq<char>, Seq<char>)>) -> Seq<(Seq<char>, Seq<char>)>
    decreases rows.len(),
{
    if rows.len() == 0 {
        Seq::empty()
    } else {
        let r = var_rows(rows.drop_last());
        if trim(rows.last().0).len() > 0 {
            r.push((trim(rows.last().0), rows.last().1))
        } else {
            r
        }
    }
}

/// The map of a list of (name, value) views, later entries winning.
pub open spec fn pairs_map(s: Seq<(Seq<char>, Seq<char>)>) -> Map<Seq<char>, Seq<char>>
    decreases s.len(),
{
    if s.len() == 0 {
        Map::empty()
    } else {
        pairs_map(s.drop_last()).insert(s.last().0, s.last().1)
    }
}

proof fn lemma_pairs_map_views(s: Seq<(String, String)>)
    ensures
        pairs_map(pair_views(s)) == entries_map(s),
    decreases s.len(),
{
    if s.len() > 0 {
        assert(pair_views(s).drop_last() =~= pair_views(s.drop_last()));
        lemma_pairs_map_views(s.drop_last());
    }
}

/// Variables typed in the settings page, as a map.
pub fn vars_from_rows(rows: &Vec<(String, String)>) -> (r: StringMap)
    ensures
        r@ == pairs_map(var_rows(pair_views(rows@))),
{
    let mut kept: Vec<(String, String)> = Vec::new();
    let mut i: usize = 0;
    while i < rows.len()
        invariant
            i <= rows@.len(),
            pair_views(kept@) == var_rows(pair_views(rows@.take(i as int))),
        decreases rows.len() - i,
    {
        assert(pair_views(rows@.take(i + 1)).drop_last() =~= pair_views(rows@.take(i as int)));
        let ghost before = kept@;
        let k = trim_str(rows[i].0.as_str());
        if k.as_str().unicode_len() > 0 {
            kept.push((k, rows[i].1.clone()));
            assert(pair_views(kept@) =~= pair_views(before).push((trim(rows@[i as int].0@), rows@[i as int].1@)));
        }
        i = i + 1;
    }
    assert(rows@.take(rows.len() as int) =~= rows@);
    proof {
        lemma_pairs_map_views(kept@);
    }
    StringMap::from_pairs(&kept)
}

/// Variables of an optional map (none: no variables).
pub open spec fn vars_of(m: Option<&StringMap>) -> Map<Seq<char>, Seq<char>> {
    match m {
        Some(v) => v@,
        None => Map::empty(),
    }
}

/// Variables in effect for a request: the project's, overridden by those of
/// the selected environment.
pub fn merged_vars(project: Option<&StringMap>, environment: Option<&StringMap>) -> (r: StringMap)
    ensures
        r@ == vars_of(project).union_prefer_right(vars_of(environment)),
{
    let mut out = match project {
        Some(p) => p.copy(),
        None => StringMap::new(),
    };
    let ghost base = out@;
    match environment {
        Some(e) => {
            let ps = e.pairs();
            let mut i: usize = 0;
            assert(ps@.take(0) =~= Seq::<(String, String)>::empty());
            assert(base.union_prefer_right(Map::empty()) =~= base);
            while i < ps.len()
                invariant
                    i <= ps@.len(),
                    out@ == base.union_prefer_right(entries_map(ps@.take(i as int))),
                decreases ps.len() - i,
            {
                assert(ps@.take(i + 1).drop_last() =~= ps@.take(i as int));
                out.insert(ps[i].0.clone(), ps[i].1.clone());
                assert(out@ =~= base.union_prefer_right(entries_map(ps@.take(i + 1))));
                i = i + 1;
            }
            assert(ps@.take(ps.len() as int) =~= ps@);
        },
        None => {
            assert(base.union_prefer_right(Map::empty()) =~= base);
        },
    }
    out
}

/// An environment variable overrides the project variable of the same name;
/// without one the project's value stands.
pub proof fn law_environment_overrides_project(
    project: Map<Seq<char>, Seq<char>>,
    environment: Map<Seq<char>, Seq<char>>,
    key: Seq<char>,
)
    ensures
        environment.contains_key(key) ==> project.union_prefer_right(environment).contains_key(key)
            && project.union_prefer_right(environment)[key] == environment[key],
        !environment.contains_key(key) ==> (project.union_prefer_right(environment).contains_key(
            key,
        ) == project.contains_key(key)),
        !environment.contains_key(key) && project.contains_key(key) ==> project.union_prefer_right(
            environment,
        )[key] == project[key],
{
}

/// A mock match condition `key=value`.
pub struct MockMatchItem {
    pub key: String,
    pub value: String,
}

/// Condition of one trimmed line: key and value around its first `=`, trimmed.
pub open spec fn match_item(l: Seq<char>) -> (Seq<char>, Seq<char>) {
    let e = find_char(l, '=', 0);
    (trim(l.take(e)), trim(l.skip(e + 1)))
}

/// Conditions of the lines that hold an `=` (trimmed lines, blank ones skipped).
pub open spec fn match_items(ls: Seq<Seq<char>>) -> Seq<(Seq<char>, Seq<char>)>
    decreases ls.len(),
{
    if ls.len() == 0 {
        Seq::empty()
    } else {
        let r = match_items(ls.drop_last());
        let l = trim(ls.last());
        if l.len() > 0 && find_char(l, '=', 0) < l.len() {
            r.push(match_item(l))
        } else {
            r
        }
    }
}

/// Views of match conditions.
pub open spec fn item_views(v: Seq<MockMatchItem>) -> Seq<(Seq<char>, Seq<char>)> {
    v.map_values(|m: MockMatchItem| (m.key@, m.value@))
}

/// Parse `key=value` lines; blank lines and lines without `=` are ignored.
pub fn parse_match_lines(text: &str) -> (r: Vec<MockMatchItem>)
    ensures
        item_views(r@) == match_items(lines_spec(text@)),
{
    let v = chars_of(text);
    let ls = lines_of(&v);
    let ghost lv = ls@.map_values(|l: Vec<char>| l@);
    let mut out: Vec<MockMatchItem> = Vec::new();
    let mut i: usize = 0;
    while i < ls.len()
        invariant
            i <= ls@.len(),
            lv == ls@.map_values(|l: Vec<char>| l@),
            lv == lines_spec(text@),
            item_views(out@) == match_items(lv.take(i as int)),
        decreases ls.len() - i,
    {
        assert(lv.take(i + 1).drop_last() =~= lv.take(i as int));
        assert(lv[i as int] == ls@[i as int]@);
        let ghost before = out@;
        let (a, b) = trim_bounds(&ls[i]);
        let l = sub_vec(&ls[i], a, b);
        let e = find_char_vec(&l, '=');
        if l.len() > 0 && e < l.len() {
            let kpart = sub_vec(&l, 0, e);
            let vpart = sub_vec(&l, e + 1, l.len());
            assert(kpart@ == l@.take(e as int));
            assert(vpart@ == l@.skip(e + 1));
            let (ka, kb) = trim_bounds(&kpart);
            let (va, vb) = trim_bounds(&vpart);
            let key = sub_vec(&kpart, ka, kb);
            let value = sub_vec(&vpart, va, vb);
            out.push(MockMatchItem { key: string_of(&key), value: string_of(&value) });
            assert(item_views(out@) =~= item_views(before).push(match_item(l@)));
        }
        i = i + 1;
    }
    assert(lv.take(ls.len() as int) =~= lv);
    out
}

/// What a keyboard shortcut asks for.
pub enum ShortcutAction {
    /// Create an endpoint with this name at the top level.
    NewEndpoint(String),
    /// Create a folder with this name at the top level.
    NewFolder(String),
    /// Nothing.
    Ignore,
}

/// Map a shortcut message to its action.
pub fn dispatch_shortcut(message: Option<&str>) -> (r: ShortcutAction)
    ensures
        match message {
            Some(m) => if m@ == "new-endpoint"@ {
                r matches ShortcutAction::NewEndpoint(n) && n@ == "未命名接口"@
            } else if m@ == "new-folder"@ {
                r matches ShortcutAction::NewFolder(n) && n@ == "新建文件夹"@
            } else {
                r is Ignore
            },
            None => r is Ignore,
        },
{
    match message {
        Some(m) => {
            if str_eq(m, "new-endpoint") {
                ShortcutAction::NewEndpoint("未命名接口".to_owned())
            } else if str_eq(m, "new-folder") {
                ShortcutAction::NewFolder("新建文件夹".to_owned())
            } else {
                ShortcutAction::Ignore
            }
        },
        None => ShortcutAction::Ignore,
    }
}

} // verus!
