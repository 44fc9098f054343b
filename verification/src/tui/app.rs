//! The TUI's state and what each key does to it.  Terminal drawing and the
//! session processes stay with the caller, which performs the actions that
//! these functions return and reports back how they went.
use vstd::prelude::*;
use vstd::string::*;
use crate::config::{
    config_fault, connections_view, fault_message, joined, opt_view, Config, ConfigFault,
    ConnectionConfig, ConnectionView,
};
use crate::session::{
    session_active, session_message, session_reload_outcome, session_start_decision,
    session_status_list, session_statuses_view, session_stop_decision, session_started,
    session_with_state, ConnectionState, ConnectionStatus, SessionManager, SessionStatusView,
    SessionsView, StopStep,
};
use crate::keyed::modify;
use crate::text::{contains_text, has_infix, lowercase, to_lowercase, trim, trimmed};
use crate::tui::form::{
    active_input, after_next_field, after_previous_field, after_remove_parameter,
    after_select_document, field_count, form_connection, form_for, form_message, form_ok,
    new_form, or_empty, row_room, rows_fit, with_active_input, ConnectionForm, FormAction,
    FormView, DOCUMENT_FIELD_INDEX,
};
use crate::tui::input::{edited, input_at, InputEdit, InputView, TextInput};

verus! {

/// The state's name as the TUI shows it.
pub open spec fn state_name(state: ConnectionState) -> Seq<char> {
    match state {
        ConnectionState::Running => "running"@,
        ConnectionState::Stopping => "stopping"@,
        ConnectionState::Stopped => "stopped"@,
        ConnectionState::Failed => "failed"@,
    }
}

pub fn format_state(state: ConnectionState) -> (r: &'static str)
    ensures
        r@ == state_name(state),
{
    match state {
        ConnectionState::Running => "running",
        ConnectionState::Stopping => "stopping",
        ConnectionState::Stopped => "stopped",
        ConnectionState::Failed => "failed",
    }
}

/// A status matches the filter query when the query is empty or occurs,
/// ignoring case, in its name, target, document, state or error.
pub open spec fn shown(s: SessionStatusView, q: Seq<char>) -> bool {
    ||| q.len() == 0
    ||| has_infix(lowercase(s.name), q)
    ||| has_infix(lowercase(s.target), q)
    ||| has_infix(lowercase(or_empty(s.document_name)), q)
    ||| has_infix(lowercase(state_name(s.state)), q)
    ||| has_infix(lowercase(or_empty(s.last_error)), q)
}

/// The statuses that match the query, in order.
pub open spec fn visible(v: Seq<SessionStatusView>, q: Seq<char>) -> Seq<SessionStatusView>
    decreases v.len(),
{
    if v.len() == 0 {
        Seq::empty()
    } else if shown(v.last(), q) {
        visible(v.drop_last(), q).push(v.last())
    } else {
        visible(v.drop_last(), q)
    }
}

/// The filter hides rows and nothing else: with an empty query every row
/// shows, and each shown row matches the query and comes from the list.
pub proof fn lemma_filter_only_hides(v: Seq<SessionStatusView>, q: Seq<char>)
    ensures
        q.len() == 0 ==> visible(v, q) == v,
        forall|i: int|
            0 <= i < visible(v, q).len() ==> shown(#[trigger] visible(v, q)[i], q) && v.contains(
                visible(v, q)[i],
            ),
        visible(v, q).len() <= v.len(),
    decreases v.len(),
{
    if v.len() > 0 {
        let t = v.drop_last();
        lemma_filter_only_hides(t, q);
        let w = visible(v, q);
        assert forall|i: int| 0 <= i < w.len() implies shown(#[trigger] w[i], q) && v.contains(
            w[i],
        ) by {
            if i < visible(t, q).len() {
                assert(w[i] == visible(t, q)[i]);
                let k = choose|k: int| 0 <= k < t.len() && t[k] == w[i];
                assert(v[k] == t[k]);
            } else {
                assert(w[i] == v.last());
                assert(v[v.len() - 1] == w[i]);
            }
        }
        if q.len() == 0 {
            assert(t.push(v.last()) =~= v);
        }
    } else {
        assert(visible(v, q) =~= v);
    }
}

/// The filter keeps every row in which the query occurs, ignoring case, in
/// its name, target, document, state or error, and every row when the
/// query is empty.
pub proof fn lemma_filter_keeps_matches(v: Seq<SessionStatusView>, q: Seq<char>, i: int)
    requires
        0 <= i < v.len(),
        q.len() == 0 || has_infix(lowercase(v[i].name), q) || has_infix(lowercase(v[i].target), q)
            || has_infix(lowercase(or_empty(v[i].document_name)), q) || has_infix(
            lowercase(state_name(v[i].state)),
            q,
        ) || has_infix(lowercase(or_empty(v[i].last_error)), q),
    ensures
        visible(v, q).contains(v[i]),
    decreases v.len(),
{
    let t = v.drop_last();
    if i == v.len() - 1 {
        assert(shown(v.last(), q));
        assert(visible(v, q).last() == v[i]);
    } else {
        assert(t[i] == v[i]);
        lemma_filter_keeps_matches(t, q, i);
        let k = choose|k: int| 0 <= k < visible(t, q).len() && visible(t, q)[k] == v[i];
        if shown(v.last(), q) {
            assert(visible(v, q)[k] == v[i]);
        } else {
            assert(visible(v, q) == visible(t, q));
        }
    }
}

/// The TUI's state as plain values.
pub struct AppView {
    pub config: Seq<ConnectionView>,
    pub sessions: SessionsView,
    pub selected: int,
    pub message: Seq<char>,
    pub form: Option<FormView>,
    pub filter: InputView,
    pub filtering: bool,
    pub delete_confirmation: Option<Seq<char>>,
    pub delete_confirmation_selected: bool,
}

/// The filter query: the filter text, trimmed and in lower case.
pub open spec fn query(a: AppView) -> Seq<char> {
    lowercase(trim(a.filter.value))
}

/// The statuses that the table shows.
pub open spec fn visible_list(a: AppView) -> Seq<SessionStatusView> {
    visible(session_status_list(a.sessions), query(a))
}

/// The name of the selected row, if the selection is on a row.
pub open spec fn selected_name_of(a: AppView) -> Option<Seq<char>> {
    if 0 <= a.selected < visible_list(a).len() {
        Some(visible_list(a)[a.selected].name)
    } else {
        None
    }
}

/// The TUI's state is well formed: an open form is well formed.
pub open spec fn app_ok(a: AppView) -> bool {
    &&& a.form matches Some(f) ==> form_ok(f)
    &&& 0 <= a.selected < usize::MAX
}

pub struct App {
    config: Config,
    manager: SessionManager,
    selected: usize,
    message: String,
    form: Option<ConnectionForm>,
    filter: TextInput,
    filtering: bool,
    delete_confirmation: Option<String>,
    delete_confirmation_selected: bool,
}

pub open spec fn form_view(f: Option<ConnectionForm>) -> Option<FormView> {
    match f {
        Some(x) => Some(x@),
        None => None,
    }
}

impl View for App {
    type V = AppView;

    closed spec fn view(&self) -> AppView {
        AppView {
            config: self.config@,
            sessions: self.manager@,
            selected: self.selected as int,
            message: self.message@,
            form: form_view(self.form),
            filter: self.filter@,
            filtering: self.filtering,
            delete_confirmation: opt_view(self.delete_confirmation),
            delete_confirmation_selected: self.delete_confirmation_selected,
        }
    }
}

/// The state the TUI opens with.
pub open spec fn opening(conns: Seq<ConnectionView>) -> AppView {
    AppView {
        config: conns,
        sessions: crate::session::initial_sessions(conns),
        selected: 0,
        message: "ready"@,
        form: None,
        filter: input_at("type a name or target"@, Seq::empty(), 0),
        filtering: false,
        delete_confirmation: None,
        delete_confirmation_selected: false,
    }
}

fn shown_status(s: &ConnectionStatus, q: &String) -> (r: bool)
    ensures
        r == shown(s@, q@),
{
    if q.as_str().is_empty() {
        return true;
    }
    let error = match &s.last_error {
        Some(e) => e.clone(),
        None => String::new(),
    };
    let document = match &s.document_name {
        Some(d) => d.clone(),
        None => String::new(),
    };
    assert(error@ == or_empty(s@.last_error));
    assert(document@ == or_empty(s@.document_name));
    contains_text(to_lowercase(s.name.as_str()).as_str(), q.as_str()) || contains_text(
        to_lowercase(s.target.as_str()).as_str(),
        q.as_str(),
    ) || contains_text(to_lowercase(document.as_str()).as_str(), q.as_str()) || contains_text(
        to_lowercase(format_state(s.state)).as_str(),
        q.as_str(),
    ) || contains_text(to_lowercase(error.as_str()).as_str(), q.as_str())
}

impl App {
    pub closed spec fn well_formed(&self) -> bool {
        app_ok(self@)
    }

    pub fn new(config: Config) -> (r: App)
        ensures
            r@ == opening(config@),
            r.well_formed(),
    {
        let manager = SessionManager::new(&config);
        App {
            config,
            manager,
            selected: 0,
            message: String::from_str("ready"),
            form: None,
            filter: TextInput::new("type a name or target"),
            filtering: false,
            delete_confirmation: None,
            delete_confirmation_selected: false,
        }
    }

    pub fn config(&self) -> (r: &Config)
        ensures
            r@ == self@.config,
    {
        &self.config
    }

    pub fn manager(&self) -> (r: &SessionManager)
        ensures
            r@ == self@.sessions,
    {
        &self.manager
    }

    pub fn selected(&self) -> (r: usize)
        ensures
            r == self@.selected,
    {
        self.selected
    }

    pub fn message(&self) -> (r: &String)
        ensures
            r@ == self@.message,
    {
        &self.message
    }

    pub fn form(&self) -> (r: &Option<ConnectionForm>)
        ensures
            form_view(*r) == self@.form,
    {
        &self.form
    }

    pub fn filter(&self) -> (r: &TextInput)
        ensures
            r@ == self@.filter,
    {
        &self.filter
    }

    pub fn filtering(&self) -> (r: bool)
        ensures
            r == self@.filtering,
    {
        self.filtering
    }

    pub fn delete_confirmation(&self) -> (r: &Option<String>)
        ensures
            opt_view(*r) == self@.delete_confirmation,
    {
        &self.delete_confirmation
    }

    pub fn delete_confirmation_selected(&self) -> (r: bool)
        ensures
            r == self@.delete_confirmation_selected,
    {
        self.delete_confirmation_selected
    }

    /// The statuses that the table shows: those matching the filter.
    pub fn visible_statuses(&self) -> (r: Vec<ConnectionStatus>)
        ensures
            session_statuses_view(r@) == visible_list(self@),
    {
        let statuses = self.manager.statuses();
        let ghost all = session_status_list(self.manager@);
        let q = to_lowercase(trimmed(self.filter.value().as_str()).as_str());
        let mut r: Vec<ConnectionStatus> = Vec::new();
        let mut i: usize = 0;
        assert(all.take(0) =~= Seq::<SessionStatusView>::empty());
        while i < statuses.len()
            invariant
                session_statuses_view(statuses@) == all,
                all == session_status_list(self.manager@),
                q@ == query(self@),
                i <= statuses.len(),
                session_statuses_view(r@) == visible(all.take(i as int), q@),
            decreases statuses.len() - i,
        {
            let s = &statuses[i];
            assert(all.take(i + 1).drop_last() =~= all.take(i as int));
            assert(all.take(i + 1).last() == s@);
            if shown_status(s, &q) {
                let ghost rb = r@;
                let c = crate::session::copy_session_status(s);
                r.push(c);
                assert(r@ == rb.push(c));
                assert(session_statuses_view(r@) =~= session_statuses_view(rb).push(s@));
            }
            i = i + 1;
        }
        assert(all.take(i as int) =~= all);
        r
    }

    /// The name of the selected connection, if the selection is on a row.
    pub fn selected_name(&self) -> (r: Option<String>)
        ensures
            opt_view(r) == selected_name_of(self@),
    {
        let v = self.visible_statuses();
        if self.selected < v.len() {
            assert(visible_list(self@)[self.selected as int] == v@[self.selected as int]@);
            Some(v[self.selected].name.clone())
        } else {
            None
        }
    }

    /// Keeps the selection on a row: at most the last visible row.
    pub fn clamp_selection(&mut self)
        requires
            old(self).well_formed(),
        ensures
            final(self).well_formed(),
            final(self)@ == (AppView {
                selected: if old(self)@.selected < visible_list(old(self)@).len() - 1 {
                    old(self)@.selected
                } else if visible_list(old(self)@).len() == 0 {
                    0
                } else {
                    visible_list(old(self)@).len() - 1
                },
                ..old(self)@
            }),
    {
        let count = self.visible_statuses().len();
        let last = if count == 0 {
            0
        } else {
            count - 1
        };
        if self.selected > last {
            self.selected = last;
        }
    }

    /// Moves the selection by `delta` rows, staying within the visible rows.
    pub fn move_selection(&mut self, delta: isize)
        requires
            old(self).well_formed(),
            delta >= 0 ==> old(self)@.selected + delta <= usize::MAX,
        ensures
            final(self).well_formed(),
            final(self)@ == (AppView {
                selected: if visible_list(old(self)@).len() == 0 {
                    old(self)@.selected
                } else if delta < 0 {
                    if old(self)@.selected + delta < 0 {
                        0
                    } else {
                        old(self)@.selected + delta
                    }
                } else if old(self)@.selected + delta < visible_list(old(self)@).len() - 1 {
                    old(self)@.selected + delta
                } else {
                    visible_list(old(self)@).len() - 1
                },
                ..old(self)@
            }),
    {
        let count = self.visible_statuses().len();
        if count == 0 {
            return;
        }
        let last = count - 1;
        if delta < 0 {
            let step: usize = if delta == isize::MIN {
                (isize::MAX as usize) + 1
            } else {
                (-delta) as usize
            };
            self.selected = if self.selected >= step {
                self.selected - step
            } else {
                0
            };
        } else {
            let moved = self.selected + delta as usize;
            self.selected = if moved < last {
                moved
            } else {
                last
            };
        }
    }

    /// The definition of the selected connection.
    pub fn selected_connection(&self) -> (r: Option<ConnectionConfig>)
        ensures
            match selected_name_of(self@) {
                None => r is None,
                Some(n) => match crate::cli::first_named(self@.config, n) {
                    Some(i) => r matches Some(c) && c@ == self@.config[i],
                    None => r is None,
                },
            },
    {
        let name = match self.selected_name() {
            Some(n) => n,
            None => {
                return None;
            },
        };
        match crate::cli::find_named(&self.config, &name) {
            Some(i) => Some(self.config.connections[i].copy()),
            None => None,
        }
    }
}

/// A key as the TUI reads it: its code and whether Control or Alt is held.
pub struct Key {
    pub code: KeyCode,
    pub control: bool,
    pub alt: bool,
}

#[derive(Clone, Copy, Debug, PartialEq, Eq, Structural)]
pub enum KeyCode {
    Char(char),
    Esc,
    Enter,
    Tab,
    BackTab,
    Up,
    Down,
    Left,
    Right,
    Home,
    End,
    Backspace,
    Delete,
    Other,
}

/// A configuration that the session manager has taken and that now must
/// be written to the configuration file.
pub struct PendingSave {
    pub config: Config,
    pub done_message: String,
    pub closes_form: bool,
}

/// What the caller must do after a key.
pub enum AppAction {
    Nothing,
    Quit,
    /// Run the session in the foreground, then `finish_interactive`.
    Interactive { name: String, config: ConnectionConfig },
    /// Spawn the session in the background, then `finish_launch`.
    Launch { name: String, config: ConnectionConfig },
    /// Kill the session's process, then `finish_kill`.
    Kill { name: String },
    /// Write the configuration, then `finish_save`.
    Save(PendingSave),
}

#[allow(inconsistent_fields)]
pub enum ActionView {
    Nothing,
    Quit,
    Interactive { name: Seq<char>, config: ConnectionView },
    Launch { name: Seq<char>, config: ConnectionView },
    Kill { name: Seq<char> },
    Save { config: Seq<ConnectionView>, done_message: Seq<char>, closes_form: bool },
}

impl View for AppAction {
    type V = ActionView;

    open spec fn view(&self) -> ActionView {
        match self {
            AppAction::Nothing => ActionView::Nothing,
            AppAction::Quit => ActionView::Quit,
            AppAction::Interactive { name, config } => ActionView::Interactive {
                name: name@,
                config: config@,
            },
            AppAction::Launch { name, config } => ActionView::Launch {
                name: name@,
                config: config@,
            },
            AppAction::Kill { name } => ActionView::Kill { name: name@ },
            AppAction::Save(p) => ActionView::Save {
                config: p.config@,
                done_message: p.done_message@,
                closes_form: p.closes_form,
            },
        }
    }
}

pub open spec fn with_message(a: AppView, m: Seq<char>) -> AppView {
    AppView { message: m, ..a }
}

pub open spec fn noted(a: AppView, m: Seq<char>) -> (AppView, ActionView) {
    (with_message(a, m), ActionView::Nothing)
}

pub open spec fn set_form(a: AppView, f: FormView) -> (AppView, ActionView) {
    (AppView { form: Some(f), ..a }, ActionView::Nothing)
}

/// The selection kept on a row.
pub open spec fn clamped(a: AppView) -> AppView {
    let n = visible_list(a).len();
    AppView {
        selected: if a.selected < n - 1 {
            a.selected
        } else if n == 0 {
            0
        } else {
            n - 1
        },
        ..a
    }
}

/// The selection moved by `delta` rows within the visible rows.
pub open spec fn moved(a: AppView, delta: int) -> AppView {
    let n = visible_list(a).len();
    AppView {
        selected: if n == 0 {
            a.selected
        } else if delta < 0 {
            if a.selected + delta < 0 {
                0
            } else {
                a.selected + delta
            }
        } else if a.selected + delta < n - 1 {
            a.selected + delta
        } else {
            n - 1
        },
        ..a
    }
}

/// The connection `name` has a session that runs or stops.
pub open spec fn is_busy(a: AppView, name: Seq<char>) -> bool {
    exists|i: int|
        0 <= i < session_status_list(a.sessions).len() && #[trigger] session_status_list(
            a.sessions,
        )[i].name == name && session_active(session_status_list(a.sessions)[i].state)
}

/// Handing a new configuration to the session manager: refused with its
/// message, or taken, leaving the file to be written.
pub open spec fn save_step(a: AppView, conns: Seq<ConnectionView>, done: Seq<char>, closes: bool) -> (
    AppView,
    ActionView,
) {
    match session_reload_outcome(a.sessions, conns) {
        Err(f) => noted(a, session_message(f)),
        Ok(s) => (
            AppView { sessions: s, ..a },
            ActionView::Save { config: conns, done_message: done, closes_form: closes },
        ),
    }
}

pub open spec fn validated_save(a: AppView, conns: Seq<ConnectionView>, name: Seq<char>) -> (
    AppView,
    ActionView,
) {
    match config_fault(conns) {
        Some(f) => noted(a, fault_message(f)),
        None => save_step(a, conns, "saved "@ + name, true),
    }
}

/// Saving the form: its connection replaces the edited one, or is added.
pub open spec fn save_form_step(a: AppView, f: FormView) -> (AppView, ActionView) {
    match form_connection(f) {
        Err(e) => noted(a, form_message(e)),
        Ok(c) => match f.edit_name {
            Some(old) => if c.name != old && crate::cli::has_name(a.config, c.name) {
                noted(a, "connection already exists: "@ + c.name)
            } else {
                match crate::cli::first_named(a.config, old) {
                    None => noted(a, "configuration not found: "@ + old),
                    Some(i) => validated_save(a, a.config.update(i, c), c.name),
                }
            },
            None => if crate::cli::has_name(a.config, c.name) {
                noted(a, "connection already exists: "@ + c.name)
            } else {
                validated_save(a, a.config.push(c), c.name)
            },
        },
    }
}

pub open spec fn cancelled(a: AppView) -> (AppView, ActionView) {
    (AppView { form: None, message: "cancelled"@, ..a }, ActionView::Nothing)
}

/// A key while the form's action row is selected.
pub open spec fn form_action_key_step(a: AppView, f: FormView, k: Key) -> (AppView, ActionView) {
    let action = f.action.unwrap();
    match k.code {
        KeyCode::Esc => cancelled(a),
        KeyCode::Tab | KeyCode::Down | KeyCode::Right => set_form(
            a,
            FormView {
                action: Some(
                    if action == FormAction::Cancel {
                        FormAction::Save
                    } else {
                        FormAction::Cancel
                    },
                ),
                ..f
            },
        ),
        KeyCode::BackTab | KeyCode::Up | KeyCode::Left => set_form(
            a,
            FormView {
                action: if action == FormAction::Cancel {
                    None
                } else {
                    Some(FormAction::Cancel)
                },
                ..f
            },
        ),
        KeyCode::Enter => if action == FormAction::Cancel {
            cancelled(a)
        } else {
            save_form_step(a, f)
        },
        _ => (a, ActionView::Nothing),
    }
}

pub open spec fn on_document(f: FormView) -> bool {
    f.active == DOCUMENT_FIELD_INDEX as int
}

pub open spec fn edit_step(a: AppView, f: FormView, e: InputEdit) -> (AppView, ActionView) {
    set_form(a, with_active_input(f, edited(active_input(f), e)))
}

/// A key while the form is open.
pub open spec fn form_key_step(a: AppView, f: FormView, k: Key) -> (AppView, ActionView) {
    if f.action is Some {
        form_action_key_step(a, f, k)
    } else {
        match k.code {
            KeyCode::Esc => if f.document_open {
                set_form(a, FormView { document_open: false, ..f })
            } else {
                cancelled(a)
            },
            KeyCode::Tab => set_form(a, after_next_field(f)),
            KeyCode::BackTab => set_form(a, after_previous_field(f)),
            KeyCode::Down => if on_document(f) && f.document_open {
                set_form(a, after_select_document(f, 1))
            } else {
                set_form(a, after_next_field(f))
            },
            KeyCode::Up => if on_document(f) && f.document_open {
                set_form(a, after_select_document(f, -1))
            } else {
                set_form(a, after_previous_field(f))
            },
            KeyCode::Enter => if on_document(f) {
                if f.document_open {
                    set_form(a, after_next_field(FormView { document_open: false, ..f }))
                } else {
                    set_form(a, FormView { document_open: true, ..f })
                }
            } else if f.active + 1 == field_count(f) {
                save_form_step(a, f)
            } else {
                set_form(a, after_next_field(f))
            },
            KeyCode::Backspace => edit_step(a, f, InputEdit::Backspace),
            KeyCode::Delete => edit_step(a, f, InputEdit::Delete),
            KeyCode::Left => if on_document(f) && f.document_open {
                set_form(a, after_select_document(f, -1))
            } else if !on_document(f) {
                edit_step(a, f, InputEdit::Left)
            } else {
                (a, ActionView::Nothing)
            },
            KeyCode::Right => if on_document(f) && f.document_open {
                set_form(a, after_select_document(f, 1))
            } else if !on_document(f) {
                edit_step(a, f, InputEdit::Right)
            } else {
                (a, ActionView::Nothing)
            },
            KeyCode::Home => edit_step(a, f, InputEdit::Home),
            KeyCode::End => edit_step(a, f, InputEdit::End),
            KeyCode::Char(c) => if c == 'd' && k.control {
                set_form(a, after_remove_parameter(f))
            } else if c == ' ' && !k.control && !k.alt {
                if on_document(f) {
                    set_form(a, FormView { document_open: !f.document_open, ..f })
                } else {
                    edit_step(a, f, InputEdit::Insert(' '))
                }
            } else if !k.control && !k.alt && !on_document(f) {
                edit_step(a, f, InputEdit::Insert(c))
            } else {
                (a, ActionView::Nothing)
            },
            _ => (a, ActionView::Nothing),
        }
    }
}

/// A key while the filter is being typed.
pub open spec fn filter_key_step(a: AppView, k: Key) -> (AppView, ActionView) {
    let typed = |e: InputEdit| AppView { filter: edited(a.filter, e), ..a };
    match k.code {
        KeyCode::Esc | KeyCode::Enter => (AppView { filtering: false, ..a }, ActionView::Nothing),
        KeyCode::Backspace => (clamped(typed(InputEdit::Backspace)), ActionView::Nothing),
        KeyCode::Delete => (clamped(typed(InputEdit::Delete)), ActionView::Nothing),
        KeyCode::Left => (typed(InputEdit::Left), ActionView::Nothing),
        KeyCode::Right => (typed(InputEdit::Right), ActionView::Nothing),
        KeyCode::Home => (typed(InputEdit::Home), ActionView::Nothing),
        KeyCode::End => (typed(InputEdit::End), ActionView::Nothing),
        KeyCode::Char(c) => if !k.control && !k.alt {
            (AppView { selected: 0, ..typed(InputEdit::Insert(c)) }, ActionView::Nothing)
        } else {
            (a, ActionView::Nothing)
        },
        _ => (a, ActionView::Nothing),
    }
}

pub open spec fn cancel_delete_step(a: AppView) -> (AppView, ActionView) {
    (
        AppView {
            delete_confirmation: None,
            delete_confirmation_selected: false,
            message: "delete cancelled"@,
            ..a
        },
        ActionView::Nothing,
    )
}

/// Confirming the deletion: the configuration without the connection
/// goes to the session manager, and then to the file.
pub open spec fn confirm_delete_step(a: AppView) -> (AppView, ActionView) {
    match a.delete_confirmation {
        None => (a, ActionView::Nothing),
        Some(n) => save_step(
            AppView { delete_confirmation: None, delete_confirmation_selected: false, ..a },
            crate::cli::without_name(a.config, n),
            "deleted "@ + n,
            false,
        ),
    }
}

/// A key while the deletion is to be confirmed.
pub open spec fn delete_key_step(a: AppView, k: Key) -> (AppView, ActionView) {
    match k.code {
        KeyCode::Char(c) => if c == 'y' || c == 'Y' {
            confirm_delete_step(a)
        } else if c == 'n' || c == 'N' {
            cancel_delete_step(a)
        } else {
            (a, ActionView::Nothing)
        },
        KeyCode::Esc => cancel_delete_step(a),
        KeyCode::Enter => if a.delete_confirmation_selected {
            confirm_delete_step(a)
        } else {
            cancel_delete_step(a)
        },
        KeyCode::Left | KeyCode::Right | KeyCode::Up | KeyCode::Down | KeyCode::Tab => (
            AppView { delete_confirmation_selected: !a.delete_confirmation_selected, ..a },
            ActionView::Nothing,
        ),
        _ => (a, ActionView::Nothing),
    }
}

pub open spec fn begin_edit_step(a: AppView) -> (AppView, ActionView) {
    match selected_name_of(a) {
        None => noted(a, "no configured connections"@),
        Some(n) => match crate::cli::first_named(a.config, n) {
            None => noted(a, "configuration not found: "@ + n),
            Some(i) => if is_busy(a, n) {
                noted(a, "stop the connection before editing it"@)
            } else {
                set_form(a, form_for(a.config[i]))
            },
        },
    }
}

pub open spec fn delete_selected_step(a: AppView) -> (AppView, ActionView) {
    match selected_name_of(a) {
        None => noted(a, "no configured connections"@),
        Some(n) => if is_busy(a, n) {
            noted(a, "stop the connection before deleting it"@)
        } else {
            (
                AppView {
                    delete_confirmation: Some(n),
                    delete_confirmation_selected: false,
                    ..a
                },
                ActionView::Nothing,
            )
        },
    }
}

/// Starting the selected connection: interactive ones run in the
/// foreground, the others go to the session manager.
pub open spec fn start_step(a: AppView) -> (AppView, ActionView) {
    match selected_name_of(a) {
        None => noted(a, "no configured connections"@),
        Some(n) => match crate::cli::first_named(a.config, n) {
            None => noted(a, "configuration not found: "@ + n),
            Some(i) => if crate::ssm::interactive(a.config[i]) {
                (a, ActionView::Interactive { name: n, config: a.config[i] })
            } else {
                match session_start_decision(a.sessions, n) {
                    Err(f) => noted(a, session_message(f)),
                    Ok(c) => (a, ActionView::Launch { name: n, config: c }),
                }
            },
        },
    }
}

/// Stopping the selected connection.
pub open spec fn stop_step(a: AppView) -> (AppView, ActionView) {
    match selected_name_of(a) {
        None => noted(a, "no configured connections"@),
        Some(n) => match session_stop_decision(a.sessions, n) {
            Err(f) => noted(a, session_message(f)),
            Ok(StopStep::Stopped) => noted(
                AppView {
                    sessions: modify(
                        a.sessions,
                        n,
                        |e: crate::session::SessionView|
                            session_with_state(e, ConnectionState::Stopped),
                    ),
                    ..a
                },
                "stopping "@ + n,
            ),
            Ok(StopStep::Kill) => (a, ActionView::Kill { name: n }),
        },
    }
}

/// A key on the main screen.
pub open spec fn main_key_step(a: AppView, k: Key) -> (AppView, ActionView) {
    match k.code {
        KeyCode::Esc => (a, ActionView::Quit),
        KeyCode::Down => (moved(a, 1), ActionView::Nothing),
        KeyCode::Up => (moved(a, -1), ActionView::Nothing),
        KeyCode::Char(c) => if c == 'q' {
            (a, ActionView::Quit)
        } else if c == 'c' && k.control {
            (a, ActionView::Quit)
        } else if c == 'j' {
            (moved(a, 1), ActionView::Nothing)
        } else if c == 'k' {
            (moved(a, -1), ActionView::Nothing)
        } else if c == 's' {
            start_step(a)
        } else if c == 'x' {
            stop_step(a)
        } else if c == 'n' {
            set_form(a, new_form())
        } else if c == 'e' {
            begin_edit_step(a)
        } else if c == 'd' {
            delete_selected_step(a)
        } else if c == '/' {
            (
                AppView { filtering: true, filter: edited(a.filter, InputEdit::End), ..a },
                ActionView::Nothing,
            )
        } else {
            (a, ActionView::Nothing)
        },
        _ => (a, ActionView::Nothing),
    }
}

/// What a key does: the open form takes it first, then a pending
/// deletion, then the filter, then the main screen.
pub open spec fn key_step(a: AppView, k: Key) -> (AppView, ActionView) {
    match a.form {
        Some(f) => form_key_step(a, f, k),
        None => if a.delete_confirmation is Some {
            delete_key_step(a, k)
        } else if a.filtering {
            filter_key_step(a, k)
        } else {
            main_key_step(a, k)
        },
    }
}

/// Limits that only the machine's size sets: the forms that keys can open
/// or grow still count their inputs in a `usize`.
pub open spec fn roomy(a: AppView) -> bool {
    &&& forall|i: int| 0 <= i < a.config.len() ==> rows_fit(#[trigger] a.config[i].parameters.len() as int)
    &&& a.form matches Some(f) ==> row_room(f)
}

/// The state after the file write that a save asked for: on success the
/// configuration is the new one (and the form closes when asked), else the
/// write's error is the message.
pub open spec fn saved(a: AppView, config: Seq<ConnectionView>, done: Seq<char>, closes: bool, written: Result<(), Seq<char>>) -> AppView {
    match written {
        Err(m) => with_message(a, m),
        Ok(()) => {
            let c = clamped(AppView { config: config, ..a });
            AppView {
                form: if closes {
                    None
                } else {
                    c.form
                },
                message: done,
                ..c
            }
        },
    }
}

impl App {
    fn note(&mut self, message: String) -> (r: AppAction)
        ensures
            final(self)@ == with_message(old(self)@, message@),
            r@ == ActionView::Nothing,
    {
        self.message = message;
        AppAction::Nothing
    }

    /// Some session of `name` runs or stops.
    fn busy(&self, name: &String) -> (r: bool)
        ensures
            r == is_busy(self@, name@),
    {
        let statuses = self.manager.statuses();
        let ghost all = session_status_list(self.manager@);
        let mut i: usize = 0;
        while i < statuses.len()
            invariant
                session_statuses_view(statuses@) == all,
                all == session_status_list(self.manager@),
                i <= statuses.len(),
                forall|j: int|
                    0 <= j < i ==> !(all[j].name == name@ && session_active(all[j].state)),
            decreases statuses.len() - i,
        {
            assert(all[i as int] == statuses@[i as int]@);
            let active = match statuses[i].state {
                ConnectionState::Running | ConnectionState::Stopping => true,
                _ => false,
            };
            if statuses[i].name == *name && active {
                assert(session_status_list(self@.sessions)[i as int].name == name@);
                return true;
            }
            i = i + 1;
        }
        false
    }

    /// Hands a new configuration to the session manager; when it takes it,
    /// the caller writes it and reports with `finish_save`.
    fn prepare_save(&mut self, config: Config, done_message: String, closes_form: bool) -> (r: AppAction)
        requires
            old(self).well_formed(),
        ensures
            final(self).well_formed(),
            (final(self)@, r@) == save_step(old(self)@, config@, done_message@, closes_form),
    {
        match self.manager.reload_config(&config) {
            Err(e) => self.note(e.message()),
            Ok(()) => AppAction::Save(PendingSave { config, done_message, closes_form }),
        }
    }

    /// Records how writing a saved configuration went.
    pub fn finish_save(&mut self, pending: PendingSave, written: Result<(), String>)
        requires
            old(self).well_formed(),
        ensures
            final(self).well_formed(),
            final(self)@ == saved(
                old(self)@,
                pending.config@,
                pending.done_message@,
                pending.closes_form,
                match written {
                    Ok(()) => Ok(()),
                    Err(m) => Err(m@),
                },
            ),
    {
        match written {
            Err(m) => {
                self.message = m;
            },
            Ok(()) => {
                self.config = pending.config;
                self.clamp_selection();
                if pending.closes_form {
                    self.form = None;
                }
                self.message = pending.done_message;
            },
        }
    }

    /// Saves the open form's connection.
    fn save_form(&mut self) -> (r: AppAction)
        requires
            old(self).well_formed(),
            old(self)@.form is Some,
        ensures
            final(self).well_formed(),
            (final(self)@, r@) == save_form_step(old(self)@, old(self)@.form.unwrap()),
    {
        let ghost a = self@;
        let (edit_name, connection) = match &self.form {
            Some(form) => {
                let c = match form.to_connection() {
                    Ok(c) => c,
                    Err(e) => {
                        return self.note(e.message());
                    },
                };
                (crate::config::copy_opt(form.edit_name()), c)
            },
            None => {
                return AppAction::Nothing;
            },
        };
        let name = connection.name.clone();
        let mut config = self.config.copy();
        match edit_name {
            Some(old) => {
                if !(name == old) {
                    match crate::cli::find_named(&config, &name) {
                        Some(i) => {
                            assert(config@[i as int].name == name@);
                            return self.note(joined("connection already exists: ", name.as_str()));
                        },
                        None => {},
                    }
                }
                match crate::cli::find_named(&config, &old) {
                    None => {
                        return self.note(joined("configuration not found: ", old.as_str()));
                    },
                    Some(i) => {
                        let ghost before = config.connections@;
                        config.connections.set(i, connection);
                        assert(config@ =~= a.config.update(i as int, connection@));
                    },
                }
            },
            None => {
                match crate::cli::find_named(&config, &name) {
                    Some(i) => {
                        assert(config@[i as int].name == name@);
                        return self.note(joined("connection already exists: ", name.as_str()));
                    },
                    None => {},
                }
                let ghost before = config.connections@;
                config.connections.push(connection);
                assert(config.connections@ == before.push(connection));
                assert(config@ =~= a.config.push(connection@));
            },
        }
        match config.validate() {
            Err(e) => self.note(e.message()),
            Ok(()) => self.prepare_save(config, joined("saved ", name.as_str()), true),
        }
    }
}

impl App {
    fn put_form(&mut self, form: ConnectionForm) -> (r: AppAction)
        ensures
            final(self)@ == (AppView { form: Some(form@), ..old(self)@ }),
            r@ == ActionView::Nothing,
    {
        self.form = Some(form);
        AppAction::Nothing
    }

    fn close_form(&mut self) -> (r: AppAction)
        ensures
            (final(self)@, r@) == cancelled(old(self)@),
    {
        self.form = None;
        self.message = String::from_str("cancelled");
        AppAction::Nothing
    }

    /// A key while the form's action row is selected.
    fn handle_form_action_key(&mut self, key: &Key) -> (r: AppAction)
        requires
            old(self).well_formed(),
            old(self)@.form matches Some(f) && f.action is Some,
        ensures
            final(self).well_formed(),
            (final(self)@, r@) == form_action_key_step(old(self)@, old(self)@.form.unwrap(), *key),
    {
        let mut form = match self.form.take() {
            Some(f) => f,
            None => {
                return AppAction::Nothing;
            },
        };
        let action = match form.action() {
            Some(a) => a,
            None => {
                self.form = Some(form);
                return AppAction::Nothing;
            },
        };
        match key.code {
            KeyCode::Esc => self.close_form(),
            KeyCode::Tab | KeyCode::Down | KeyCode::Right => {
                form.set_action(
                    Some(
                        match action {
                            FormAction::Cancel => FormAction::Save,
                            FormAction::Save => FormAction::Cancel,
                        },
                    ),
                );
                self.put_form(form)
            },
            KeyCode::BackTab | KeyCode::Up | KeyCode::Left => {
                form.set_action(
                    match action {
                        FormAction::Cancel => None,
                        FormAction::Save => Some(FormAction::Cancel),
                    },
                );
                self.put_form(form)
            },
            KeyCode::Enter => match action {
                FormAction::Cancel => self.close_form(),
                FormAction::Save => {
                    self.form = Some(form);
                    self.save_form()
                },
            },
            _ => self.put_form(form),
        }
    }

    fn edit_form(&mut self, mut form: ConnectionForm, e: InputEdit) -> (r: AppAction)
        requires
            form_ok(form@),
        ensures
            (final(self)@, r@) == edit_step(old(self)@, form@, e),
            final(self)@.form matches Some(f) && form_ok(f),
    {
        form.edit_active(e);
        self.put_form(form)
    }

    /// A key while the form is open.
    pub fn handle_form_key(&mut self, key: &Key) -> (r: AppAction)
        requires
            old(self).well_formed(),
            old(self)@.form is Some,
            roomy(old(self)@),
        ensures
            final(self).well_formed(),
            (final(self)@, r@) == form_key_step(old(self)@, old(self)@.form.unwrap(), *key),
    {
        let has_action = match &self.form {
            Some(f) => f.action().is_some(),
            None => false,
        };
        if has_action {
            return self.handle_form_action_key(key);
        }
        let mut form = match self.form.take() {
            Some(f) => f,
            None => {
                return AppAction::Nothing;
            },
        };
        let on_doc = form.active() == DOCUMENT_FIELD_INDEX;
        match key.code {
            KeyCode::Esc => {
                if form.document_open() {
                    form.set_document_open(false);
                    self.put_form(form)
                } else {
                    self.close_form()
                }
            },
            KeyCode::Tab => {
                form.next_field();
                self.put_form(form)
            },
            KeyCode::BackTab => {
                form.previous_field();
                self.put_form(form)
            },
            KeyCode::Down => {
                if on_doc && form.document_open() {
                    form.select_document(1);
                } else {
                    form.next_field();
                }
                self.put_form(form)
            },
            KeyCode::Up => {
                if on_doc && form.document_open() {
                    form.select_document(-1);
                } else {
                    form.previous_field();
                }
                self.put_form(form)
            },
            KeyCode::Enter => {
                if on_doc {
                    if form.document_open() {
                        form.set_document_open(false);
                        form.next_field();
                    } else {
                        form.set_document_open(true);
                    }
                    self.put_form(form)
                } else if form.active() + 1 == form.field_count() {
                    self.form = Some(form);
                    self.save_form()
                } else {
                    form.next_field();
                    self.put_form(form)
                }
            },
            KeyCode::Backspace => self.edit_form(form, InputEdit::Backspace),
            KeyCode::Delete => self.edit_form(form, InputEdit::Delete),
            KeyCode::Left => {
                if on_doc && form.document_open() {
                    form.select_document(-1);
                    self.put_form(form)
                } else if !on_doc {
                    self.edit_form(form, InputEdit::Left)
                } else {
                    self.put_form(form)
                }
            },
            KeyCode::Right => {
                if on_doc && form.document_open() {
                    form.select_document(1);
                    self.put_form(form)
                } else if !on_doc {
                    self.edit_form(form, InputEdit::Right)
                } else {
                    self.put_form(form)
                }
            },
            KeyCode::Home => self.edit_form(form, InputEdit::Home),
            KeyCode::End => self.edit_form(form, InputEdit::End),
            KeyCode::Char(c) => {
                if c == 'd' && key.control {
                    form.remove_active_parameter();
                    self.put_form(form)
                } else if c == ' ' && !key.control && !key.alt {
                    if on_doc {
                        let open = form.document_open();
                        form.set_document_open(!open);
                        self.put_form(form)
                    } else {
                        self.edit_form(form, InputEdit::Insert(' '))
                    }
                } else if !key.control && !key.alt && !on_doc {
                    self.edit_form(form, InputEdit::Insert(c))
                } else {
                    self.put_form(form)
                }
            },
            _ => self.put_form(form),
        }
    }
}

/// How a session run in the foreground ended.
pub enum InteractiveOutcome {
    /// The session exited successfully.
    Ended,
    /// The session exited with this status (as the system describes it).
    Failed(String),
    /// The session could not be run; this is the error.
    Error(String),
}

impl App {
    /// A key while the filter is being typed.
    pub fn handle_filter_key(&mut self, key: &Key) -> (r: AppAction)
        requires
            old(self).well_formed(),
        ensures
            final(self).well_formed(),
            (final(self)@, r@) == filter_key_step(old(self)@, *key),
    {
        match key.code {
            KeyCode::Esc | KeyCode::Enter => {
                self.filtering = false;
            },
            KeyCode::Backspace => {
                self.filter.backspace();
                self.clamp_selection();
            },
            KeyCode::Delete => {
                self.filter.delete();
                self.clamp_selection();
            },
            KeyCode::Left => self.filter.move_left(),
            KeyCode::Right => self.filter.move_right(),
            KeyCode::Home => self.filter.move_home(),
            KeyCode::End => self.filter.move_end(),
            KeyCode::Char(c) => {
                if !key.control && !key.alt {
                    self.filter.insert(c);
                    self.selected = 0;
                }
            },
            _ => {},
        }
        AppAction::Nothing
    }

    fn cancel_delete(&mut self) -> (r: AppAction)
        ensures
            (final(self)@, r@) == cancel_delete_step(old(self)@),
    {
        self.delete_confirmation = None;
        self.delete_confirmation_selected = false;
        self.message = String::from_str("delete cancelled");
        AppAction::Nothing
    }

    fn confirm_delete(&mut self) -> (r: AppAction)
        requires
            old(self).well_formed(),
        ensures
            final(self).well_formed(),
            (final(self)@, r@) == confirm_delete_step(old(self)@),
    {
        let name = match self.delete_confirmation.take() {
            Some(n) => n,
            None => {
                return AppAction::Nothing;
            },
        };
        self.delete_confirmation_selected = false;
        let mut config = self.config.copy();
        let removal = crate::cli::ConfigCommand::Remove { name: name.clone() };
        let ghost before = config@;
        let outcome = crate::cli::config_command(&mut config, &removal);
        proof {
            if !crate::cli::has_name(before, name@) {
                lemma_without_missing(before, name@);
            }
        }
        self.prepare_save(config, joined("deleted ", name.as_str()), false)
    }

    /// A key while a deletion waits for confirmation.
    pub fn handle_delete_confirmation_key(&mut self, key: &Key) -> (r: AppAction)
        requires
            old(self).well_formed(),
        ensures
            final(self).well_formed(),
            (final(self)@, r@) == delete_key_step(old(self)@, *key),
    {
        match key.code {
            KeyCode::Char(c) => {
                if c == 'y' || c == 'Y' {
                    self.confirm_delete()
                } else if c == 'n' || c == 'N' {
                    self.cancel_delete()
                } else {
                    AppAction::Nothing
                }
            },
            KeyCode::Esc => self.cancel_delete(),
            KeyCode::Enter => {
                if self.delete_confirmation_selected {
                    self.confirm_delete()
                } else {
                    self.cancel_delete()
                }
            },
            KeyCode::Left | KeyCode::Right | KeyCode::Up | KeyCode::Down | KeyCode::Tab => {
                self.delete_confirmation_selected = !self.delete_confirmation_selected;
                AppAction::Nothing
            },
            _ => AppAction::Nothing,
        }
    }

    fn begin_edit(&mut self) -> (r: AppAction)
        requires
            old(self).well_formed(),
            roomy(old(self)@),
        ensures
            final(self).well_formed(),
            (final(self)@, r@) == begin_edit_step(old(self)@),
    {
        let name = match self.selected_name() {
            Some(n) => n,
            None => {
                return self.note(String::from_str("no configured connections"));
            },
        };
        let i = match crate::cli::find_named(&self.config, &name) {
            Some(i) => i,
            None => {
                return self.note(joined("configuration not found: ", name.as_str()));
            },
        };
        if self.busy(&name) {
            return self.note(String::from_str("stop the connection before editing it"));
        }
        assert(self@.config[i as int] == self.config.connections@[i as int]@);
        let form = ConnectionForm::from_connection(&self.config.connections[i]);
        self.put_form(form)
    }

    fn delete_selected(&mut self) -> (r: AppAction)
        requires
            old(self).well_formed(),
        ensures
            final(self).well_formed(),
            (final(self)@, r@) == delete_selected_step(old(self)@),
    {
        let name = match self.selected_name() {
            Some(n) => n,
            None => {
                return self.note(String::from_str("no configured connections"));
            },
        };
        if self.busy(&name) {
            return self.note(String::from_str("stop the connection before deleting it"));
        }
        self.delete_confirmation = Some(name);
        self.delete_confirmation_selected = false;
        AppAction::Nothing
    }

    fn start_selected(&mut self) -> (r: AppAction)
        requires
            old(self).well_formed(),
        ensures
            final(self).well_formed(),
            (final(self)@, r@) == start_step(old(self)@),
    {
        let name = match self.selected_name() {
            Some(n) => n,
            None => {
                return self.note(String::from_str("no configured connections"));
            },
        };
        let i = match crate::cli::find_named(&self.config, &name) {
            Some(i) => i,
            None => {
                return self.note(joined("configuration not found: ", name.as_str()));
            },
        };
        assert(self@.config[i as int] == self.config.connections@[i as int]@);
        if crate::ssm::is_interactive(&self.config.connections[i]) {
            return AppAction::Interactive { name, config: self.config.connections[i].copy() };
        }
        match self.manager.start(name.as_str()) {
            Err(e) => self.note(e.message()),
            Ok(config) => AppAction::Launch { name, config },
        }
    }

    fn stop_selected(&mut self) -> (r: AppAction)
        requires
            old(self).well_formed(),
        ensures
            final(self).well_formed(),
            (final(self)@, r@) == stop_step(old(self)@),
    {
        let name = match self.selected_name() {
            Some(n) => n,
            None => {
                return self.note(String::from_str("no configured connections"));
            },
        };
        match self.manager.stop(name.as_str()) {
            Err(e) => self.note(e.message()),
            Ok(StopStep::Stopped) => self.note(joined("stopping ", name.as_str())),
            Ok(StopStep::Kill) => AppAction::Kill { name },
        }
    }

    /// A key on the main screen.
    pub fn handle_main_key(&mut self, key: &Key) -> (r: AppAction)
        requires
            old(self).well_formed(),
            roomy(old(self)@),
        ensures
            final(self).well_formed(),
            (final(self)@, r@) == main_key_step(old(self)@, *key),
    {
        match key.code {
            KeyCode::Esc => AppAction::Quit,
            KeyCode::Down => {
                self.move_selection(1);
                AppAction::Nothing
            },
            KeyCode::Up => {
                self.move_selection(-1);
                AppAction::Nothing
            },
            KeyCode::Char(c) => {
                if c == 'q' {
                    AppAction::Quit
                } else if c == 'c' && key.control {
                    AppAction::Quit
                } else if c == 'j' {
                    self.move_selection(1);
                    AppAction::Nothing
                } else if c == 'k' {
                    self.move_selection(-1);
                    AppAction::Nothing
                } else if c == 's' {
                    self.start_selected()
                } else if c == 'x' {
                    self.stop_selected()
                } else if c == 'n' {
                    self.put_form(ConnectionForm::new())
                } else if c == 'e' {
                    self.begin_edit()
                } else if c == 'd' {
                    self.delete_selected()
                } else if c == '/' {
                    self.filtering = true;
                    self.filter.move_end();
                    AppAction::Nothing
                } else {
                    AppAction::Nothing
                }
            },
            _ => AppAction::Nothing,
        }
    }

    /// What a key does: the open form takes it first, then a pending
    /// deletion, then the filter, then the main screen.
    pub fn handle_key(&mut self, key: &Key) -> (r: AppAction)
        requires
            old(self).well_formed(),
            roomy(old(self)@),
        ensures
            final(self).well_formed(),
            (final(self)@, r@) == key_step(old(self)@, *key),
    {
        if self.form.is_some() {
            self.handle_form_key(key)
        } else if self.delete_confirmation.is_some() {
            self.handle_delete_confirmation_key(key)
        } else if self.filtering {
            self.handle_filter_key(key)
        } else {
            self.handle_main_key(key)
        }
    }

    /// Whether the machine-size limits of `handle_key` hold: no
    /// connection or open form has more parameter rows than a `usize`
    /// can count inputs for.
    pub fn within_limits(&self) -> (r: bool)
        requires
            self.well_formed(),
        ensures
            r == roomy(self@),
    {
        let mut i: usize = 0;
        while i < self.config.connections.len()
            invariant
                i <= self.config.connections.len(),
                forall|j: int| 0 <= j < i ==> rows_fit(#[trigger] self@.config[j].parameters.len() as int),
            decreases self.config.connections.len() - i,
        {
            let n = self.config.connections[i].parameters.len();
            assert(self@.config[i as int].parameters.len() == n);
            if n >= (usize::MAX - 9) / 2 {
                return false;
            }
            i = i + 1;
        }
        match &self.form {
            Some(f) => f.field_count_below(usize::MAX - 2),
            None => true,
        }
    }

    /// Records that the session of `name` was spawned (`launched` holds its
    /// process id, if the system gave one) or could not be (`None`).
    pub fn finish_launch(&mut self, name: &str, launched: Option<Option<u32>>, now: u64)
        requires
            old(self).well_formed(),
        ensures
            final(self).well_formed(),
            launched is None ==> final(self)@ == with_message(
                old(self)@,
                "starting AWS session for "@ + name@,
            ),
            launched matches Some(pid) ==> final(self)@ == with_message(
                AppView {
                    sessions: modify(
                        old(self)@.sessions,
                        name@,
                        |e: crate::session::SessionView| session_started(e, pid, now),
                    ),
                    ..old(self)@
                },
                "started "@ + name@,
            ),
    {
        match launched {
            None => {
                self.message = joined("starting AWS session for ", name);
            },
            Some(pid) => {
                self.manager.record_started(name, pid, now);
                self.message = joined("started ", name);
            },
        }
    }

    /// Records how a foreground session ended.
    pub fn finish_interactive(&mut self, name: &str, outcome: InteractiveOutcome)
        requires
            old(self).well_formed(),
        ensures
            final(self).well_formed(),
            final(self)@ == with_message(
                old(self)@,
                match outcome {
                    InteractiveOutcome::Ended => "session ended: "@ + name@,
                    InteractiveOutcome::Failed(status) => "session failed with "@ + status@ + ": "@
                        + name@,
                    InteractiveOutcome::Error(e) => e@,
                },
            ),
    {
        self.message = match outcome {
            InteractiveOutcome::Ended => joined("session ended: ", name),
            InteractiveOutcome::Failed(status) => {
                let mut m = joined3_owned("session failed with ", status.as_str(), ": ");
                m.append(name);
                m
            },
            InteractiveOutcome::Error(e) => e,
        };
    }

    /// Records whether killing the process of `name` worked.
    pub fn finish_kill(&mut self, name: &str, killed: bool)
        requires
            old(self).well_formed(),
        ensures
            final(self).well_formed(),
            killed ==> final(self)@ == with_message(
                AppView {
                    sessions: modify(
                        old(self)@.sessions,
                        name@,
                        |e: crate::session::SessionView|
                            session_with_state(e, ConnectionState::Stopping),
                    ),
                    ..old(self)@
                },
                "stopping "@ + name@,
            ),
            !killed ==> final(self)@ == with_message(old(self)@, "stopping AWS session"@),
    {
        if killed {
            self.manager.mark_stopping(name);
            self.message = joined("stopping ", name);
        } else {
            self.message = String::from_str("stopping AWS session");
        }
    }

    /// Records what polling the process of `name` found.
    pub fn record_wait(&mut self, name: &str, outcome: &crate::session::WaitOutcome)
        requires
            old(self).well_formed(),
        ensures
            final(self).well_formed(),
            final(self)@ == (AppView {
                sessions: modify(
                    old(self)@.sessions,
                    name@,
                    |e: crate::session::SessionView| crate::session::after_wait(e, outcome@),
                ),
                ..old(self)@
            }),
    {
        self.manager.record_wait(name, outcome);
    }

    /// What the TUI does when it closes: sessions marked `keep_on_exit` keep
    /// running; the others give up their processes, whose names it gives
    /// for the caller to kill.
    pub fn shutdown(&mut self) -> (r: Vec<String>)
        requires
            old(self).well_formed(),
        ensures
            final(self).well_formed(),
            final(self)@ == (AppView {
                sessions: crate::session::released_all(old(self)@.sessions),
                ..old(self)@
            }),
            crate::config::texts_view(r@) == crate::session::process_names(old(self)@.sessions),
    {
        self.manager.shutdown()
    }
}

fn joined3_owned(prefix: &str, text: &str, suffix: &str) -> (r: String)
    ensures
        r@ == prefix@ + text@ + suffix@,
{
    crate::config::joined3(prefix, text, suffix)
}

proof fn lemma_without_missing(conns: Seq<ConnectionView>, name: Seq<char>)
    requires
        !crate::cli::has_name(conns, name),
    ensures
        crate::cli::without_name(conns, name) == conns,
    decreases conns.len(),
{
    if conns.len() > 0 {
        assert(!crate::cli::has_name(conns.drop_last(), name)) by {
            if crate::cli::has_name(conns.drop_last(), name) {
                let j = choose|j: int|
                    0 <= j < conns.drop_last().len() && #[trigger] conns.drop_last()[j].name == name;
                assert(conns[j].name == name);
            }
        }
        lemma_without_missing(conns.drop_last(), name);
        assert(conns.last().name != name) by {
            if conns.last().name == name {
                assert(conns[conns.len() - 1].name == name);
            }
        }
        assert(conns.drop_last().push(conns.last()) =~= conns);
    } else {
        assert(crate::cli::without_name(conns, name) =~= conns);
    }
}

} // verus!
