//! The state of the management console and what each key press does to it.
//! Drawing the screen and running the commands against the stores is left
//! to the caller, which hands every key press to `App::handle_key`.
use vstd::prelude::*;
use crate::limit::{whole_minutes, LimitRule};
use crate::log::AccessSession;
use crate::numbers::{decimal, format_int, parse_i32, parse_i64, parsed_i32, parsed_i64};
use crate::policy::{action_name, Action, DomainTag, Rule, RuleData};
use crate::text::{ascii_lower, lowercase, opt_view, pop_char, push_char, to_lowercase, trim, trimmed};

verus! {

/// The tabs of the console.
#[derive(Clone, Copy, Debug, PartialEq, Eq, Structural)]
pub enum Tab {
    Rules,
    Logs,
    Tags,
    Limits,
}

/// The tab after `t`, wrapping around.
pub open spec fn next_tab_of(t: Tab) -> Tab {
    match t {
        Tab::Rules => Tab::Logs,
        Tab::Logs => Tab::Tags,
        Tab::Tags => Tab::Limits,
        Tab::Limits => Tab::Rules,
    }
}

impl Tab {
    /// The tabs in display order.
    pub fn all() -> (v: Vec<Tab>)
        ensures
            v@ == seq![Tab::Rules, Tab::Logs, Tab::Tags, Tab::Limits],
    {
        let v = vec![Tab::Rules, Tab::Logs, Tab::Tags, Tab::Limits];
        assert(v@ =~= seq![Tab::Rules, Tab::Logs, Tab::Tags, Tab::Limits]);
        v
    }

    /// The tab's title with its key.
    pub fn title(&self) -> (s: &'static str)
        ensures
            s@ == (match *self {
                Tab::Rules => " Rules (P) "@,
                Tab::Logs => " Logs (L) "@,
                Tab::Tags => " Tags (T) "@,
                Tab::Limits => " Limits (U) "@,
            }),
    {
        match self {
            Tab::Rules => " Rules (P) ",
            Tab::Logs => " Logs (L) ",
            Tab::Tags => " Tags (T) ",
            Tab::Limits => " Limits (U) ",
        }
    }
}

/// Whether the console shows the tables or a form, and which.
pub enum InputMode {
    Viewing,
    AddingRule,
    EditingRule(i64),
    AddingTag,
    EditingTag(String),
    AddingLimit,
    EditingLimit(String),
}

/// The number of form fields (the button included) a mode shows.
pub open spec fn form_len(m: InputMode) -> int {
    match m {
        InputMode::Viewing => 0,
        InputMode::AddingRule => 6,
        InputMode::EditingRule(_) => 6,
        _ => 3,
    }
}

/// A key press.
pub enum Key {
    Char(char),
    Tab,
    Up,
    Down,
    Esc,
    Enter,
    Backspace,
    Other,
}

/// What the caller runs after a key press.
pub enum Command {
    Nothing,
    /// Reload the tables.
    Refresh,
    DeleteRule(i64),
    DeleteTag(String),
    DeleteLimit(String),
    /// Delete the stored access log and the active sessions.
    ClearLogs,
    InsertRule(RuleData),
    UpdateRule(i64, RuleData),
    /// A second-level domain and its tag.
    AddTag(String, String),
    /// A tag and its limit in seconds.
    AddLimit(String, i64),
}

/// The console state.
pub struct App {
    pub active_tab: Tab,
    pub input_mode: InputMode,
    pub should_quit: bool,
    pub rules: Vec<Rule>,
    pub logs: Vec<AccessSession>,
    pub tags: Vec<DomainTag>,
    pub limits: Vec<LimitRule>,
    pub rule_selected: Option<usize>,
    pub log_selected: Option<usize>,
    pub tag_selected: Option<usize>,
    pub limit_selected: Option<usize>,
    /// (label, value) of each form field; the last is the button.
    pub form_fields: Vec<(String, String)>,
    pub form_focus: usize,
}

/// The texts of form fields.
pub open spec fn field_texts(f: Seq<(String, String)>) -> Seq<(Seq<char>, Seq<char>)> {
    f.map_values(|p: (String, String)| (p.0@, p.1@))
}

/// The text of an optional string, empty for `None`.
pub open spec fn opt_text(o: Option<String>) -> Seq<char> {
    match o {
        Some(s) => s@,
        None => Seq::empty(),
    }
}

/// A selection that can be moved by one in either direction.
pub open spec fn small_selection(s: Option<usize>) -> bool {
    s matches Some(i) ==> i < i32::MAX
}

/// What a key press changes in the selection `sel` of a list of `len` items
/// when it moves by `delta`: it stays within the list; without a selection the
/// first item is selected; an empty list keeps the selection.
pub open spec fn moved(sel: Option<usize>, len: int, delta: int) -> Option<usize> {
    if len == 0 {
        sel
    } else {
        match sel {
            Some(i) => {
                let next = i + delta;
                Some(
                    (if next < 0 {
                        0
                    } else if next >= len {
                        len - 1
                    } else {
                        next
                    }) as usize,
                )
            },
            None => Some(0),
        }
    }
}

/// The form that adding an item on tab `t` opens, if any.
pub open spec fn add_form(t: Tab) -> Option<(InputMode, Seq<(Seq<char>, Seq<char>)>)> {
    match t {
        Tab::Rules => Some(
            (
                InputMode::AddingRule,
                seq![
                    ("Priority"@, "100"@),
                    ("Action (Allow/Block)"@, "Block"@),
                    ("Domain"@, ""@),
                    ("Tag"@, ""@),
                    ("Name"@, ""@),
                    ("[Submit]"@, ""@),
                ],
            ),
        ),
        Tab::Tags => Some(
            (InputMode::AddingTag, seq![("SLD"@, ""@), ("Tag Name"@, ""@), ("[Submit]"@, ""@)]),
        ),
        Tab::Limits => Some(
            (
                InputMode::AddingLimit,
                seq![("Tag Name"@, ""@), ("Max Minutes/Day"@, "60"@), ("[Submit]"@, ""@)],
            ),
        ),
        Tab::Logs => None,
    }
}

/// The fields of the form that editing rule `r` opens.
pub open spec fn rule_edit_texts(r: Rule) -> Seq<(Seq<char>, Seq<char>)> {
    seq![
        ("Priority"@, decimal(r.data.priority as int)),
        ("Action"@, action_name(r.data.action)),
        ("Domain"@, opt_text(r.data.domain)),
        ("Tag"@, opt_text(r.data.tag)),
        ("Name"@, opt_text(r.data.name)),
        ("[Update]"@, ""@),
    ]
}

/// The form that editing the selected item of `app` opens, if any.
pub open spec fn edit_form(app: App) -> Option<(InputMode, Seq<(Seq<char>, Seq<char>)>)> {
    match app.active_tab {
        Tab::Rules => match app.rule_selected {
            Some(i) => if i < app.rules@.len() {
                let r = app.rules@[i as int];
                Some((InputMode::EditingRule(r.id), rule_edit_texts(r)))
            } else {
                None
            },
            None => None,
        },
        Tab::Tags => match app.tag_selected {
            Some(i) => if i < app.tags@.len() {
                let t = app.tags@[i as int];
                Some(
                    (
                        InputMode::EditingTag(t.sld),
                        seq![("SLD (Read-only)"@, t.sld@), ("Tag Name"@, t.tag@), ("[Update]"@, ""@)],
                    ),
                )
            } else {
                None
            },
            None => None,
        },
        Tab::Limits => match app.limit_selected {
            Some(i) => if i < app.limits@.len() {
                let l = app.limits@[i as int];
                Some(
                    (
                        InputMode::EditingLimit(l.tag),
                        seq![
                            ("Tag (Read-only)"@, l.tag@),
                            ("Max Minutes/Day"@, decimal(whole_minutes(l.max_duration_secs as int))),
                            ("[Update]"@, ""@),
                        ],
                    ),
                )
            } else {
                None
            },
            None => None,
        },
        Tab::Logs => None,
    }
}

/// The command that deleting on the current tab of `app` gives.
pub open spec fn delete_command(app: App, cmd: Command) -> bool {
    match app.active_tab {
        Tab::Rules => match app.rule_selected {
            Some(i) => if i < app.rules@.len() {
                cmd == Command::DeleteRule(app.rules@[i as int].id)
            } else {
                cmd is Refresh
            },
            None => cmd is Refresh,
        },
        Tab::Tags => match app.tag_selected {
            Some(i) => if i < app.tags@.len() {
                cmd == Command::DeleteTag(app.tags@[i as int].sld)
            } else {
                cmd is Refresh
            },
            None => cmd is Refresh,
        },
        Tab::Limits => match app.limit_selected {
            Some(i) => if i < app.limits@.len() {
                cmd == Command::DeleteLimit(app.limits@[i as int].tag)
            } else {
                cmd is Refresh
            },
            None => cmd is Refresh,
        },
        Tab::Logs => cmd is ClearLogs,
    }
}

/// `Some(s)` for a non-empty `s`, else `None`.
pub open spec fn non_empty(s: String) -> Option<String> {
    if s@.len() == 0 {
        None
    } else {
        Some(s)
    }
}

/// The text reads `allow` once lower-cased (ASCII text lower-cases letter by
/// letter).
pub open spec fn allow_text(t: Seq<char>) -> bool {
    if vstd::utf8::is_ascii_chars(t) {
        t.map_values(|c: char| ascii_lower(c)) == "allow"@
    } else {
        lowercase(t) == "allow"@
    }
}

/// The rule that a rule form describes: priority 100 when the text is not an
/// `i32`, `Allow` only for `allow` in any case, empty texts left out.
pub open spec fn rule_form_data(f: Seq<(String, String)>) -> RuleData {
    RuleData {
        priority: match parsed_i32(f[0].1@) {
            Some(p) => p,
            None => 100,
        },
        action: if allow_text(f[1].1@) {
            Action::Allow
        } else {
            Action::Block
        },
        name: non_empty(f[4].1),
        domain: non_empty(f[2].1),
        tag: non_empty(f[3].1),
        path_pattern: None,
        client_ip: None,
    }
}

/// The minutes of a limit form: 0 when the text is not an `i64`.
pub open spec fn limit_form_minutes(f: Seq<(String, String)>) -> int {
    match parsed_i64(f[1].1@) {
        Some(m) => m as int,
        None => 0,
    }
}

/// The command that submitting the form of `app` gives.
pub open spec fn submit_command(app: App, cmd: Command) -> bool {
    let f = app.form_fields@;
    match app.input_mode {
        InputMode::AddingRule => cmd == Command::InsertRule(rule_form_data(f)),
        InputMode::EditingRule(id) => cmd == Command::UpdateRule(id, rule_form_data(f)),
        InputMode::Viewing => cmd is Refresh,
        InputMode::AddingTag | InputMode::EditingTag(_) => {
            let sld = lowercase(trimmed(f[0].1@));
            let tag = trimmed(f[1].1@);
            if trimmed(f[0].1@).len() > 0 && tag.len() > 0 {
                cmd matches Command::AddTag(s, t) && s@ == sld && t@ == tag
            } else {
                cmd is Refresh
            }
        },
        InputMode::AddingLimit | InputMode::EditingLimit(_) => {
            let tag = trimmed(f[0].1@);
            let mins = limit_form_minutes(f);
            if tag.len() > 0 && mins > 0 {
                cmd matches Command::AddLimit(t, secs) && t@ == tag && secs == mins * 60
            } else {
                cmd is Refresh
            }
        },
    }
}

/// The field texts of a form, empty when there is no form.
pub open spec fn form_texts(form: Option<(InputMode, Seq<(Seq<char>, Seq<char>)>)>) -> Seq<
    (Seq<char>, Seq<char>),
> {
    match form {
        Some((_, f)) => f,
        None => Seq::empty(),
    }
}

/// The same tables and selections.
pub open spec fn same_tables(a: App, b: App) -> bool {
    &&& a.rules == b.rules
    &&& a.logs == b.logs
    &&& a.tags == b.tags
    &&& a.limits == b.limits
    &&& a.rule_selected == b.rule_selected
    &&& a.log_selected == b.log_selected
    &&& a.tag_selected == b.tag_selected
    &&& a.limit_selected == b.limit_selected
}

/// `b` is `a` with a different tab at most.
pub open spec fn only_tab(a: App, b: App) -> bool {
    &&& same_tables(a, b)
    &&& a.input_mode == b.input_mode
    &&& a.should_quit == b.should_quit
    &&& a.form_fields == b.form_fields
    &&& a.form_focus == b.form_focus
}

/// `b` is `a` with the field at `focus` holding `text` instead.
pub open spec fn field_set(a: App, b: App, text: Seq<char>) -> bool {
    let i = a.form_focus as int;
    &&& b.form_fields@.len() == a.form_fields@.len()
    &&& forall|j: int|
        0 <= j < a.form_fields@.len() && j != i ==> #[trigger] b.form_fields@[j]
            == a.form_fields@[j]
    &&& b.form_fields@[i].0 == a.form_fields@[i].0
    &&& b.form_fields@[i].1@ == text
}

/// The selection of the current tab of `app` and the length of its list.
pub open spec fn current_selection(app: App) -> (Option<usize>, int) {
    match app.active_tab {
        Tab::Rules => (app.rule_selected, app.rules@.len() as int),
        Tab::Logs => (app.log_selected, app.logs@.len() as int),
        Tab::Tags => (app.tag_selected, app.tags@.len() as int),
        Tab::Limits => (app.limit_selected, app.limits@.len() as int),
    }
}

/// `b` is `a` with the selection of the current tab moved by `delta`.
pub open spec fn selection_moved(a: App, b: App, delta: int) -> bool {
    let (sel, len) = current_selection(a);
    let s = moved(sel, len, delta);
    &&& a.rules == b.rules
    &&& a.logs == b.logs
    &&& a.tags == b.tags
    &&& a.limits == b.limits
    &&& b.rule_selected == (if a.active_tab == Tab::Rules {
        s
    } else {
        a.rule_selected
    })
    &&& b.log_selected == (if a.active_tab == Tab::Logs {
        s
    } else {
        a.log_selected
    })
    &&& b.tag_selected == (if a.active_tab == Tab::Tags {
        s
    } else {
        a.tag_selected
    })
    &&& b.limit_selected == (if a.active_tab == Tab::Limits {
        s
    } else {
        a.limit_selected
    })
    &&& a.active_tab == b.active_tab
    &&& a.input_mode == b.input_mode
    &&& a.should_quit == b.should_quit
    &&& a.form_fields == b.form_fields
    &&& a.form_focus == b.form_focus
}

/// `b` is `a` showing the form `form`, focused on its first field.
pub open spec fn opens_form(
    a: App,
    b: App,
    form: Option<(InputMode, Seq<(Seq<char>, Seq<char>)>)>,
) -> bool {
    &&& same_tables(a, b)
    &&& a.active_tab == b.active_tab
    &&& a.should_quit == b.should_quit
    &&& b.form_focus == 0
    &&& match form {
        Some((m, f)) => b.input_mode == m && field_texts(b.form_fields@) == f,
        None => b.input_mode == a.input_mode && b.form_fields == a.form_fields,
    }
}

/// `key` submits the form that `app` shows: Enter on its last field, the
/// button.
pub open spec fn submits(app: App, key: Key) -> bool {
    &&& !(app.input_mode is Viewing)
    &&& key is Enter
    &&& app.form_focus as int == app.form_fields@.len() - 1
}

/// The selection of the current tab of `app` can be moved by `delta` with
/// `i32` arithmetic: an empty list or no selection, or a selection `i` with
/// `i + delta` within `i32`.
pub open spec fn delta_fits(app: App, delta: int) -> bool {
    let (sel, len) = current_selection(app);
    len > 0 ==> (sel matches Some(i) ==> i32::MIN <= i + delta <= i32::MAX)
}

/// What a key press does: `old` becomes `new` and the caller is asked to run
/// `cmd`. Submitting a form keeps it open; the caller closes it with
/// `App::finish_command` once the command has run.
pub open spec fn key_step(old: App, new: App, key: Key, cmd: Command) -> bool {
    if old.input_mode is Viewing {
        match key {
            Key::Char(c) => if c == 'q' {
                &&& cmd is Nothing
                &&& new == App { should_quit: true, ..old }
            } else if c == 'p' || c == 'l' || c == 't' || c == 'u' {
                &&& cmd is Nothing
                &&& only_tab(old, new)
                &&& new.active_tab == (if c == 'p' {
                    Tab::Rules
                } else if c == 'l' {
                    Tab::Logs
                } else if c == 't' {
                    Tab::Tags
                } else {
                    Tab::Limits
                })
            } else if c == 'r' {
                cmd is Refresh && new == old
            } else if c == 'a' {
                cmd is Nothing && opens_form(old, new, add_form(old.active_tab))
            } else if c == 'e' {
                cmd is Nothing && opens_form(old, new, edit_form(old))
            } else if c == 'd' {
                delete_command(old, cmd) && new == old
            } else {
                cmd is Nothing && new == old
            },
            Key::Tab => cmd is Nothing && only_tab(old, new) && new.active_tab == next_tab_of(
                old.active_tab,
            ),
            Key::Up => cmd is Nothing && selection_moved(old, new, -1),
            Key::Down => cmd is Nothing && selection_moved(old, new, 1),
            _ => cmd is Nothing && new == old,
        }
    } else {
        let n = old.form_fields@.len() as int;
        let f = old.form_focus as int;
        match key {
            Key::Esc => cmd is Nothing && new == App { input_mode: InputMode::Viewing, ..old },
            Key::Tab | Key::Down => cmd is Nothing && new == App {
                form_focus: ((f + 1) % n) as usize,
                ..old
            },
            Key::Up => cmd is Nothing && new == App {
                form_focus: (if f == 0 {
                    n - 1
                } else {
                    f - 1
                }) as usize,
                ..old
            },
            Key::Enter => if f == n - 1 {
                submit_command(old, cmd) && new == old
            } else {
                cmd is Nothing && new == App { form_focus: ((f + 1) % n) as usize, ..old }
            },
            Key::Char(c) => if f < n - 1 {
                &&& cmd is Nothing
                &&& same_tables(old, new)
                &&& new.active_tab == old.active_tab
                &&& new.input_mode == old.input_mode
                &&& new.should_quit == old.should_quit
                &&& new.form_focus == old.form_focus
                &&& field_set(old, new, old.form_fields@[f].1@.push(c))
            } else {
                cmd is Nothing && new == old
            },
            Key::Backspace => if f < n - 1 {
                let t = old.form_fields@[f].1@;
                &&& cmd is Nothing
                &&& same_tables(old, new)
                &&& new.active_tab == old.active_tab
                &&& new.input_mode == old.input_mode
                &&& new.should_quit == old.should_quit
                &&& new.form_focus == old.form_focus
                &&& field_set(
                    old,
                    new,
                    if t.len() > 0 {
                        t.drop_last()
                    } else {
                        t
                    },
                )
            } else {
                cmd is Nothing && new == old
            },
            _ => cmd is Nothing && new == old,
        }
    }
}

/// Deleting asks for the selected item of the current tab: the rule, tag or
/// limit at the selection, when the selection is within its list.
pub proof fn lemma_delete_targets_selection(app: App, cmd: Command, i: usize)
    requires
        delete_command(app, cmd),
    ensures
        app.active_tab == Tab::Rules && app.rule_selected == Some(i) && i < app.rules@.len()
            ==> cmd == Command::DeleteRule(app.rules@[i as int].id),
        app.active_tab == Tab::Tags && app.tag_selected == Some(i) && i < app.tags@.len() ==> cmd
            == Command::DeleteTag(app.tags@[i as int].sld),
        app.active_tab == Tab::Limits && app.limit_selected == Some(i) && i < app.limits@.len()
            ==> cmd == Command::DeleteLimit(app.limits@[i as int].tag),
{
}

/// Moving down and then deleting on the rules tab asks to delete the rule
/// after the one selected before, and changes nothing else.
pub proof fn lemma_delete_after_down(
    a0: App,
    a1: App,
    a2: App,
    c1: Command,
    c2: Command,
    i: usize,
)
    requires
        a0.wf(),
        a0.input_mode is Viewing,
        a0.active_tab == Tab::Rules,
        a0.rule_selected == Some(i),
        i + 1 < a0.rules@.len(),
        key_step(a0, a1, Key::Down, c1),
        key_step(a1, a2, Key::Char('d'), c2),
    ensures
        c1 is Nothing,
        a1.rule_selected == Some((i + 1) as usize),
        c2 == Command::DeleteRule(a0.rules@[i + 1].id),
        a2 == a1,
{
    assert(current_selection(a0) == (Some(i), a0.rules@.len() as int));
}

/// After four presses of the tab key the console is back on the tab it
/// started from.
pub proof fn lemma_tab_cycle(t: Tab)
    ensures
        next_tab_of(next_tab_of(next_tab_of(next_tab_of(t)))) == t,
{
}

/// Moving a selection in a non-empty list leaves it on an item of the list.
pub proof fn lemma_moved_in_range(sel: Option<usize>, len: int, delta: int)
    requires
        len > 0,
        len <= usize::MAX,
    ensures
        moved(sel, len, delta) matches Some(i) && i < len,
{
}

/// The text of an optional string as a form reads it back: a non-empty text
/// stays, an empty or missing one is left out.
pub open spec fn read_back(o: Option<String>) -> Option<Seq<char>> {
    match o {
        Some(s) => if s@.len() > 0 {
            Some(s@)
        } else {
            None
        },
        None => None,
    }
}

/// Submitting, unchanged, the form that editing a rule opens describes the
/// same rule: same priority and action, the same domain, tag and name when
/// they are not empty. (The form has no path pattern or client address, so
/// those come back empty.)
pub proof fn lemma_rule_form_round_trip(r: Rule, f: Seq<(String, String)>)
    requires
        field_texts(f) == rule_edit_texts(r),
    ensures
        rule_form_data(f).priority == r.data.priority,
        rule_form_data(f).action == r.data.action,
        opt_view(rule_form_data(f).domain) == read_back(r.data.domain),
        opt_view(rule_form_data(f).tag) == read_back(r.data.tag),
        opt_view(rule_form_data(f).name) == read_back(r.data.name),
        rule_form_data(f).path_pattern is None,
        rule_form_data(f).client_ip is None,
{
    assert(rule_edit_texts(r).len() == 6);
    assert(field_texts(f).len() == f.len());
    assert(f.len() == 6);
    assert(field_texts(f)[0] == (f[0].0@, f[0].1@));
    assert(field_texts(f)[1] == (f[1].0@, f[1].1@));
    assert(field_texts(f)[2] == (f[2].0@, f[2].1@));
    assert(field_texts(f)[3] == (f[3].0@, f[3].1@));
    assert(field_texts(f)[4] == (f[4].0@, f[4].1@));
    crate::numbers::lemma_decimal_round_trip(r.data.priority as i64);
    reveal_strlit("allow");
    let a = action_name(r.data.action);
    assert(vstd::utf8::is_ascii_chars(a));
    assert(a.map_values(|c: char| ascii_lower(c)) =~= (if r.data.action == Action::Allow {
        "allow"@
    } else {
        seq!['b', 'l', 'o', 'c', 'k']
    }));
}

/// Two strings, each copied from a literal.
fn field(label: &str, value: &str) -> (p: (String, String))
    ensures
        p.0@ == label@,
        p.1@ == value@,
{
    (String::from_str(label), String::from_str(value))
}

impl App {
    /// The console is in a consistent state: a form has as many fields as its
    /// mode shows and the focus is on one of them; the lists are short enough
    /// for selections to be moved by one.
    pub open spec fn wf(&self) -> bool {
        &&& (!(self.input_mode is Viewing) ==> self.form_fields@.len() == form_len(
            self.input_mode,
        ) && self.form_focus < self.form_fields@.len())
        &&& self.rules@.len() <= i32::MAX
        &&& self.logs@.len() <= i32::MAX
        &&& self.tags@.len() <= i32::MAX
        &&& self.limits@.len() <= i32::MAX
        &&& small_selection(self.rule_selected)
        &&& small_selection(self.log_selected)
        &&& small_selection(self.tag_selected)
        &&& small_selection(self.limit_selected)
    }

    /// The console as it opens: the rules tab, no form, empty tables with
    /// their first row selected.
    pub fn new() -> (app: App)
        ensures
            app.wf(),
            app.active_tab == Tab::Rules,
            app.input_mode is Viewing,
            !app.should_quit,
            app.rules@.len() == 0,
            app.logs@.len() == 0,
            app.tags@.len() == 0,
            app.limits@.len() == 0,
            app.rule_selected == Some(0usize),
            app.log_selected == Some(0usize),
            app.tag_selected == Some(0usize),
            app.limit_selected == Some(0usize),
            app.form_fields@.len() == 0,
            app.form_focus == 0,
    {
        App {
            active_tab: Tab::Rules,
            input_mode: InputMode::Viewing,
            should_quit: false,
            rules: Vec::new(),
            logs: Vec::new(),
            tags: Vec::new(),
            limits: Vec::new(),
            rule_selected: Some(0),
            log_selected: Some(0),
            tag_selected: Some(0),
            limit_selected: Some(0),
            form_fields: Vec::new(),
            form_focus: 0,
        }
    }

    /// Replaces the tables with freshly loaded ones.
    pub fn set_data(
        &mut self,
        rules: Vec<Rule>,
        logs: Vec<AccessSession>,
        tags: Vec<DomainTag>,
        limits: Vec<LimitRule>,
    )
        requires
            old(self).wf(),
            rules@.len() <= i32::MAX,
            logs@.len() <= i32::MAX,
            tags@.len() <= i32::MAX,
            limits@.len() <= i32::MAX,
        ensures
            final(self).wf(),
            *final(self) == (App { rules, logs, tags, limits, ..*old(self) }),
    {
        self.rules = rules;
        self.logs = logs;
        self.tags = tags;
        self.limits = limits;
    }

    /// Moves the selection of the current tab by `delta`, keeping it within
    /// the list.
    pub fn move_selection(&mut self, delta: i32)
        requires
            old(self).wf(),
            delta_fits(*old(self), delta as int),
        ensures
            final(self).wf(),
            selection_moved(*old(self), *final(self), delta as int),
    {
        let (sel, len) = match self.active_tab {
            Tab::Rules => (self.rule_selected, self.rules.len()),
            Tab::Logs => (self.log_selected, self.logs.len()),
            Tab::Tags => (self.tag_selected, self.tags.len()),
            Tab::Limits => (self.limit_selected, self.limits.len()),
        };
        if len == 0 {
            return;
        }
        let i: usize = match sel {
            Some(i) => {
                let next = i as i32 + delta;
                if next < 0 {
                    0
                } else if next >= len as i32 {
                    len - 1
                } else {
                    next as usize
                }
            },
            None => 0,
        };
        match self.active_tab {
            Tab::Rules => self.rule_selected = Some(i),
            Tab::Logs => self.log_selected = Some(i),
            Tab::Tags => self.tag_selected = Some(i),
            Tab::Limits => self.limit_selected = Some(i),
        }
    }

    /// Switches to the next tab.
    pub fn next_tab(&mut self)
        ensures
            *final(self) == (App { active_tab: next_tab_of(old(self).active_tab), ..*old(self) }),
    {
        self.active_tab = match self.active_tab {
            Tab::Rules => Tab::Logs,
            Tab::Logs => Tab::Tags,
            Tab::Tags => Tab::Limits,
            Tab::Limits => Tab::Rules,
        };
    }

    /// Opens the form for adding an item on the current tab.
    pub fn init_add_mode(&mut self)
        requires
            old(self).wf(),
        ensures
            final(self).wf(),
            opens_form(*old(self), *final(self), add_form(old(self).active_tab)),
    {
        match self.active_tab {
            Tab::Rules => {
                let v = vec![
                    field("Priority", "100"),
                    field("Action (Allow/Block)", "Block"),
                    field("Domain", ""),
                    field("Tag", ""),
                    field("Name", ""),
                    field("[Submit]", ""),
                ];
                assert(field_texts(v@) =~= form_texts(add_form(Tab::Rules)));
                self.input_mode = InputMode::AddingRule;
                self.form_fields = v;
            },
            Tab::Tags => {
                let v = vec![field("SLD", ""), field("Tag Name", ""), field("[Submit]", "")];
                assert(field_texts(v@) =~= form_texts(add_form(Tab::Tags)));
                self.input_mode = InputMode::AddingTag;
                self.form_fields = v;
            },
            Tab::Limits => {
                let v = vec![
                    field("Tag Name", ""),
                    field("Max Minutes/Day", "60"),
                    field("[Submit]", ""),
                ];
                assert(field_texts(v@) =~= form_texts(add_form(Tab::Limits)));
                self.input_mode = InputMode::AddingLimit;
                self.form_fields = v;
            },
            Tab::Logs => {},
        }
        self.form_focus = 0;
    }

    /// Opens the form for editing the selected item of the current tab.
    pub fn init_edit_mode(&mut self)
        requires
            old(self).wf(),
        ensures
            final(self).wf(),
            opens_form(*old(self), *final(self), edit_form(*old(self))),
    {
        match self.active_tab {
            Tab::Rules => {
                if let Some(i) = self.rule_selected {
                    if i < self.rules.len() {
                        let r = &self.rules[i];
                        let priority = format_int(r.data.priority as i64);
                        let domain = text_of(&r.data.domain);
                        let tag = text_of(&r.data.tag);
                        let name = text_of(&r.data.name);
                        let v = vec![
                            (String::from_str("Priority"), priority),
                            field("Action", r.data.action.as_str()),
                            (String::from_str("Domain"), domain),
                            (String::from_str("Tag"), tag),
                            (String::from_str("Name"), name),
                            field("[Update]", ""),
                        ];
                        assert(field_texts(v@) =~= form_texts(edit_form(*old(self))));
                        self.input_mode = InputMode::EditingRule(r.id);
                        self.form_fields = v;
                    }
                }
            },
            Tab::Tags => {
                if let Some(i) = self.tag_selected {
                    if i < self.tags.len() {
                        let t = &self.tags[i];
                        let v = vec![
                            (String::from_str("SLD (Read-only)"), t.sld.clone()),
                            (String::from_str("Tag Name"), t.tag.clone()),
                            field("[Update]", ""),
                        ];
                        assert(field_texts(v@) =~= form_texts(edit_form(*old(self))));
                        self.input_mode = InputMode::EditingTag(t.sld.clone());
                        self.form_fields = v;
                    }
                }
            },
            Tab::Limits => {
                if let Some(i) = self.limit_selected {
                    if i < self.limits.len() {
                        let l = &self.limits[i];
                        let minutes = format_int(l.max_minutes());
                        let v = vec![
                            (String::from_str("Tag (Read-only)"), l.tag.clone()),
                            (String::from_str("Max Minutes/Day"), minutes),
                            field("[Update]", ""),
                        ];
                        assert(field_texts(v@) =~= form_texts(edit_form(*old(self))));
                        self.input_mode = InputMode::EditingLimit(l.tag.clone());
                        self.form_fields = v;
                    }
                }
            },
            Tab::Logs => {},
        }
        self.form_focus = 0;
    }

    /// What deleting on the current tab asks for: the selected rule, tag or
    /// limit, or the whole access log on the logs tab.
    pub fn delete_selected(&self) -> (cmd: Command)
        ensures
            delete_command(*self, cmd),
    {
        match self.active_tab {
            Tab::Rules => {
                if let Some(i) = self.rule_selected {
                    if i < self.rules.len() {
                        return Command::DeleteRule(self.rules[i].id);
                    }
                }
                Command::Refresh
            },
            Tab::Tags => {
                if let Some(i) = self.tag_selected {
                    if i < self.tags.len() {
                        return Command::DeleteTag(self.tags[i].sld.clone());
                    }
                }
                Command::Refresh
            },
            Tab::Limits => {
                if let Some(i) = self.limit_selected {
                    if i < self.limits.len() {
                        return Command::DeleteLimit(self.limits[i].tag.clone());
                    }
                }
                Command::Refresh
            },
            Tab::Logs => Command::ClearLogs,
        }
    }

    /// A limit form asks for a number of minutes whose seconds fit in an
    /// `i64`.
    pub open spec fn limit_fits(&self) -> bool {
        (self.input_mode is AddingLimit || self.input_mode is EditingLimit) ==> (
        self.form_fields@.len() >= 2 ==> limit_form_minutes(self.form_fields@) * 60 <= i64::MAX)
    }

    /// Whether a limit form asks for minutes whose seconds fit in an `i64`.
    pub fn limit_fits_exec(&self) -> (b: bool)
        requires
            self.wf(),
        ensures
            b == self.limit_fits(),
    {
        match self.input_mode {
            InputMode::AddingLimit | InputMode::EditingLimit(_) => {
                let mins: i64 = match parse_i64(self.form_fields[1].1.as_str()) {
                    Some(m) => m,
                    None => 0,
                };
                mins <= i64::MAX / 60
            },
            _ => true,
        }
    }

    /// What submitting the form asks for (see `submit_command`).
    pub fn submit_form(&self) -> (cmd: Command)
        requires
            self.wf(),
            self.limit_fits(),
        ensures
            submit_command(*self, cmd),
    {
        match &self.input_mode {
            InputMode::AddingRule | InputMode::EditingRule(_) => {
                let data = self.rule_form();
                match self.input_mode {
                    InputMode::EditingRule(id) => Command::UpdateRule(id, data),
                    _ => Command::InsertRule(data),
                }
            },
            InputMode::AddingTag | InputMode::EditingTag(_) => {
                let t0 = trim(self.form_fields[0].1.as_str());
                let sld = to_lowercase(t0.as_str());
                let tag = trim(self.form_fields[1].1.as_str());
                if sld.unicode_len() > 0 && tag.unicode_len() > 0 {
                    Command::AddTag(sld, tag)
                } else {
                    Command::Refresh
                }
            },
            InputMode::AddingLimit | InputMode::EditingLimit(_) => {
                let tag = trim(self.form_fields[0].1.as_str());
                let mins: i64 = match parse_i64(self.form_fields[1].1.as_str()) {
                    Some(m) => m,
                    None => 0,
                };
                if tag.unicode_len() > 0 && mins > 0 {
                    Command::AddLimit(tag, mins * 60)
                } else {
                    Command::Refresh
                }
            },
            InputMode::Viewing => Command::Refresh,
        }
    }

    fn rule_form(&self) -> (data: RuleData)
        requires
            self.form_fields@.len() == 6,
        ensures
            data == rule_form_data(self.form_fields@),
    {
        let priority: i32 = match parse_i32(self.form_fields[0].1.as_str()) {
            Some(p) => p,
            None => 100,
        };
        let lowered = to_lowercase(self.form_fields[1].1.as_str());
        let allow = String::from_str("allow");
        let action = if lowered == allow {
            Action::Allow
        } else {
            Action::Block
        };
        RuleData {
            priority,
            action,
            name: non_empty_copy(&self.form_fields[4].1),
            domain: non_empty_copy(&self.form_fields[2].1),
            tag: non_empty_copy(&self.form_fields[3].1),
            path_pattern: None,
            client_ip: None,
        }
    }

    /// Handles one key press and says what the caller should run.
    pub fn handle_key(&mut self, key: Key) -> (cmd: Command)
        requires
            old(self).wf(),
            submits(*old(self), key) ==> old(self).limit_fits(),
        ensures
            final(self).wf(),
            key_step(*old(self), *final(self), key, cmd),
    {
        let viewing = match self.input_mode {
            InputMode::Viewing => true,
            _ => false,
        };
        if viewing {
            match key {
                Key::Char(c) => {
                    if c == 'q' {
                        self.should_quit = true;
                        Command::Nothing
                    } else if c == 'p' {
                        self.active_tab = Tab::Rules;
                        Command::Nothing
                    } else if c == 'l' {
                        self.active_tab = Tab::Logs;
                        Command::Nothing
                    } else if c == 't' {
                        self.active_tab = Tab::Tags;
                        Command::Nothing
                    } else if c == 'u' {
                        self.active_tab = Tab::Limits;
                        Command::Nothing
                    } else if c == 'r' {
                        Command::Refresh
                    } else if c == 'a' {
                        self.init_add_mode();
                        Command::Nothing
                    } else if c == 'e' {
                        self.init_edit_mode();
                        Command::Nothing
                    } else if c == 'd' {
                        self.delete_selected()
                    } else {
                        Command::Nothing
                    }
                },
                Key::Tab => {
                    self.next_tab();
                    Command::Nothing
                },
                Key::Up => {
                    self.move_selection(-1);
                    Command::Nothing
                },
                Key::Down => {
                    self.move_selection(1);
                    Command::Nothing
                },
                _ => Command::Nothing,
            }
        } else {
            let n = self.form_fields.len();
            match key {
                Key::Esc => {
                    self.input_mode = InputMode::Viewing;
                    Command::Nothing
                },
                Key::Tab | Key::Down => {
                    self.form_focus = (self.form_focus + 1) % n;
                    Command::Nothing
                },
                Key::Up => {
                    self.form_focus = if self.form_focus == 0 {
                        n - 1
                    } else {
                        self.form_focus - 1
                    };
                    Command::Nothing
                },
                Key::Enter => {
                    if self.form_focus == n - 1 {
                        self.submit_form()
                    } else {
                        self.form_focus = (self.form_focus + 1) % n;
                        Command::Nothing
                    }
                },
                Key::Char(c) => {
                    if self.form_focus < n - 1 {
                        let f = self.form_focus;
                        let ghost before = self.form_fields@;
                        let mut entry = self.form_fields.remove(f);
                        push_char(&mut entry.1, c);
                        self.form_fields.insert(f, entry);
                        assert forall|j: int| 0 <= j < before.len() && j != f implies #[trigger] self.form_fields@[j]
                            == before[j] by {
                            if j < f {
                            } else {
                            }
                        }
                    }
                    Command::Nothing
                },
                Key::Backspace => {
                    if self.form_focus < n - 1 {
                        let f = self.form_focus;
                        let ghost before = self.form_fields@;
                        let mut entry = self.form_fields.remove(f);
                        pop_char(&mut entry.1);
                        self.form_fields.insert(f, entry);
                        assert forall|j: int| 0 <= j < before.len() && j != f implies #[trigger] self.form_fields@[j]
                            == before[j] by {
                            if j < f {
                            } else {
                            }
                        }
                    }
                    Command::Nothing
                },
                _ => Command::Nothing,
            }
        }
    }
}

impl App {
    /// Takes the outcome of a command other than `Command::Nothing` that a key
    /// press gave: when it succeeded the console shows the tables again (a
    /// submitted form closes); when it failed nothing changes, a submitted
    /// form staying open.
    pub fn finish_command(&mut self, succeeded: bool)
        requires
            old(self).wf(),
        ensures
            final(self).wf(),
            *final(self) == (if succeeded {
                App { input_mode: InputMode::Viewing, ..*old(self) }
            } else {
                *old(self)
            }),
    {
        if succeeded {
            self.input_mode = InputMode::Viewing;
        }
    }
}

/// The mode shows a form that adds an item.
pub open spec fn is_adding(m: InputMode) -> bool {
    m is AddingRule || m is AddingTag || m is AddingLimit
}

impl App {
    /// The title of the form's popup: ` Add New Item ` for a form that adds an
    /// item, ` Edit Item ` otherwise.
    pub fn popup_title(&self) -> (s: &'static str)
        ensures
            s@ == (if is_adding(self.input_mode) {
                " Add New Item "@
            } else {
                " Edit Item "@
            }),
    {
        match self.input_mode {
            InputMode::AddingRule | InputMode::AddingTag | InputMode::AddingLimit => " Add New Item ",
            _ => " Edit Item ",
        }
    }

    /// The key help at the bottom of the screen: the table keys while
    /// viewing, the form keys while a form is open.
    pub fn help_text(&self) -> (s: &'static str)
        ensures
            s@ == (if self.input_mode is Viewing {
                " [↑/↓] Select  [A] Add  [E] Edit  [D] Delete  [R] Refresh  [Q] Quit "@
            } else {
                " [Esc] Cancel  [Tab] Next Field  [Enter] Submit "@
            }),
    {
        match self.input_mode {
            InputMode::Viewing => " [↑/↓] Select  [A] Add  [E] Edit  [D] Delete  [R] Refresh  [Q] Quit ",
            _ => " [Esc] Cancel  [Tab] Next Field  [Enter] Submit ",
        }
    }
}

/// The text of an optional string, or `default` for `None`.
pub open spec fn text_or(o: Option<String>, default: Seq<char>) -> Seq<char> {
    match o {
        Some(s) => s@,
        None => default,
    }
}

/// The cells of a rule's row: id, priority, action, domain (`*` for any),
/// tag (`*` for any) and name (`-` without one).
pub open spec fn rule_cells_of(r: Rule) -> Seq<Seq<char>> {
    seq![
        decimal(r.id as int),
        decimal(r.data.priority as int),
        action_name(r.data.action),
        text_or(r.data.domain, "*"@),
        text_or(r.data.tag, "*"@),
        text_or(r.data.name, "-"@),
    ]
}

/// The cells of a domain tag's row: id, second-level domain and tag.
pub open spec fn tag_cells_of(t: DomainTag) -> Seq<Seq<char>> {
    seq![decimal(t.id as int), t.sld@, t.tag@]
}

/// The cells of a limit's row: id, tag and the limit in whole minutes.
pub open spec fn limit_cells_of(l: LimitRule) -> Seq<Seq<char>> {
    seq![
        decimal(l.id as int),
        l.tag@,
        decimal(whole_minutes(l.max_duration_secs as int)) + " min"@,
    ]
}

fn text_or_default(o: &Option<String>, default: &str) -> (s: String)
    ensures
        s@ == text_or(*o, default@),
{
    match o {
        Some(s) => s.clone(),
        None => String::from_str(default),
    }
}

/// The cells of a rule's row in the rules table.
pub fn rule_cells(r: &Rule) -> (cells: Vec<String>)
    ensures
        crate::text::views(cells@) == rule_cells_of(*r),
{
    let cells = vec![
        format_int(r.id),
        format_int(r.data.priority as i64),
        String::from_str(r.data.action.as_str()),
        text_or_default(&r.data.domain, "*"),
        text_or_default(&r.data.tag, "*"),
        text_or_default(&r.data.name, "-"),
    ];
    assert(crate::text::views(cells@) =~= rule_cells_of(*r));
    cells
}

/// The cells of a domain tag's row in the tags table.
pub fn tag_cells(t: &DomainTag) -> (cells: Vec<String>)
    ensures
        crate::text::views(cells@) == tag_cells_of(*t),
{
    let cells = vec![format_int(t.id), t.sld.clone(), t.tag.clone()];
    assert(crate::text::views(cells@) =~= tag_cells_of(*t));
    cells
}

/// The cells of a limit's row in the limits table.
pub fn limit_cells(l: &LimitRule) -> (cells: Vec<String>)
    ensures
        crate::text::views(cells@) == limit_cells_of(*l),
{
    let mut minutes = format_int(l.max_minutes());
    minutes.append(" min");
    let cells = vec![format_int(l.id), l.tag.clone(), minutes];
    assert(crate::text::views(cells@) =~= limit_cells_of(*l));
    cells
}

/// The text of an optional string, empty for `None`.
fn text_of(o: &Option<String>) -> (s: String)
    ensures
        s@ == opt_text(*o),
{
    match o {
        Some(s) => s.clone(),
        None => String::new(),
    }
}

/// A copy of `s` when it is not empty.
fn non_empty_copy(s: &String) -> (r: Option<String>)
    ensures
        r == non_empty(*s),
{
    if s.as_str().is_empty() {
        None
    } else {
        Some(s.clone())
    }
}

} // verus!
