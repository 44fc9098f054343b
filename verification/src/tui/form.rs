//! The form that creates or edits a connection in the TUI.
use vstd::prelude::*;
use vstd::string::*;
use crate::config::{joined, ConnectionConfig, ConnectionView, opt_view};
use crate::params::{lookup, pairs_view, put, ParamView, Parameters};
use crate::keyed::{ascending, lemma_ascending_unique, lemma_lookup_missing, lemma_put_after, lookup_miss};
use crate::text::{decimal, decimal_text, text_lt, trim, trimmed};
use crate::tui::input::{edited, input_at, input_ok, InputEdit, InputView, TextInput};

verus! {

/// The index of the document field among the form's fields.
pub const DOCUMENT_FIELD_INDEX: usize = 4;

/// Which button the form's action row has selected.
#[derive(Clone, Copy, Debug, PartialEq, Eq, Structural)]
pub enum FormAction {
    Cancel,
    Save,
}

pub struct FormField {
    pub label: &'static str,
    pub input: TextInput,
}

pub struct ParameterRow {
    pub key: TextInput,
    pub value: TextInput,
}

/// The form as plain values.
pub struct FormView {
    pub edit_name: Option<Seq<char>>,
    pub keep_on_exit: bool,
    pub active: int,
    pub action: Option<FormAction>,
    pub labels: Seq<Seq<char>>,
    pub inputs: Seq<InputView>,
    pub document_options: Seq<Seq<char>>,
    pub document_index: int,
    pub document_open: bool,
    pub parameters: Seq<(InputView, InputView)>,
}

pub open spec fn blank_input(placeholder: Seq<char>) -> InputView {
    input_at(placeholder, Seq::empty(), 0)
}

/// An input holding `value` with the cursor at its end.
pub open spec fn filled_input(placeholder: Seq<char>, value: Seq<char>) -> InputView {
    input_at(placeholder, value, value.len() as int)
}

pub open spec fn key_placeholder() -> Seq<char> {
    "e.g. host"@
}

pub open spec fn value_placeholder() -> Seq<char> {
    "e.g. db.example.test"@
}

pub open spec fn blank_row() -> (InputView, InputView) {
    (blank_input(key_placeholder()), blank_input(value_placeholder()))
}

pub open spec fn field_placeholders() -> Seq<Seq<char>> {
    seq![
        "e.g. demo-db"@,
        "e.g. i-0123456789abcdef0"@,
        "e.g. us-west-2"@,
        "e.g. example-profile (optional)"@,
        "e.g. AWS-StartPortForwardingSessionToRemoteHost"@,
    ]
}

/// The documents offered before any connection adds its own: none, then
/// the three AWS session documents.
pub open spec fn standard_documents() -> Seq<Seq<char>> {
    seq![
        Seq::empty(),
        "AWS-StartInteractiveCommand"@,
        "AWS-StartPortForwardingSession"@,
        "AWS-StartPortForwardingSessionToRemoteHost"@,
    ]
}

/// The empty form for a new connection.
pub open spec fn new_form() -> FormView {
    FormView {
        edit_name: None,
        keep_on_exit: false,
        active: 0,
        action: None,
        labels: seq!["Name"@, "Target"@, "Region"@, "Profile"@, "Document"@],
        inputs: field_placeholders().map_values(|p: Seq<char>| blank_input(p)),
        document_options: standard_documents(),
        document_index: 0,
        document_open: false,
        parameters: seq![blank_row()],
    }
}

/// The number of inputs the cursor can visit: the fields, then a key and
/// a value per parameter row.
pub open spec fn field_count(f: FormView) -> int {
    (f.inputs.len() + 2 * f.parameters.len()) as int
}

/// The form is well formed: five fields, a selected document among at
/// least one, at least one parameter row, and the active input among them.
pub open spec fn form_ok(f: FormView) -> bool {
    &&& f.inputs.len() == 5
    &&& f.labels.len() == 5
    &&& 1 <= f.document_options.len() <= usize::MAX
    &&& 0 <= f.document_index < f.document_options.len()
    &&& f.parameters.len() >= 1
    &&& 0 <= f.active < field_count(f)
    &&& field_count(f) < usize::MAX
}

/// One more parameter row still fits the input count in a `usize`.
pub open spec fn row_room(f: FormView) -> bool {
    field_count(f) + 2 < usize::MAX
}

/// The input the cursor is in.
pub open spec fn active_input(f: FormView) -> InputView {
    if f.active < f.inputs.len() {
        f.inputs[f.active]
    } else {
        let row = f.parameters[(f.active - f.inputs.len()) / 2];
        if (f.active - f.inputs.len()) % 2 == 0 {
            row.0
        } else {
            row.1
        }
    }
}

/// The form with the active input replaced.
pub open spec fn with_active_input(f: FormView, i: InputView) -> FormView {
    if f.active < f.inputs.len() {
        FormView { inputs: f.inputs.update(f.active, i), ..f }
    } else {
        let r = (f.active - f.inputs.len()) / 2;
        let row = f.parameters[r];
        if (f.active - f.inputs.len()) % 2 == 0 {
            FormView { parameters: f.parameters.update(r, (i, row.1)), ..f }
        } else {
            FormView { parameters: f.parameters.update(r, (row.0, i)), ..f }
        }
    }
}

/// The first index of `d` among `opts`.
pub open spec fn option_position(opts: Seq<Seq<char>>, d: Seq<char>) -> Option<int>
    decreases opts.len(),
{
    if opts.len() == 0 {
        None
    } else if opts[0] == d {
        Some(0)
    } else {
        match option_position(opts.drop_first(), d) {
            Some(i) => Some(i + 1),
            None => None,
        }
    }
}

pub open spec fn or_empty(o: Option<Seq<char>>) -> Seq<char> {
    match o {
        Some(s) => s,
        None => Seq::empty(),
    }
}

/// The form that edits connection `c`: its fields filled in, its document
/// selected (added to the choices when it is not offered), and a row per
/// parameter (one blank row when it has none).
pub open spec fn form_for(c: ConnectionView) -> FormView {
    let base = new_form();
    let ph = field_placeholders();
    let (options, index) = match c.document_name {
        None => (base.document_options, 0),
        Some(d) => match option_position(base.document_options, d) {
            Some(i) => (base.document_options, i),
            None => (base.document_options.push(d), base.document_options.len() as int),
        },
    };
    FormView {
        edit_name: Some(c.name),
        keep_on_exit: c.keep_on_exit,
        inputs: seq![
            filled_input(ph[0], c.name),
            filled_input(ph[1], c.target),
            filled_input(ph[2], or_empty(c.region)),
            filled_input(ph[3], or_empty(c.profile)),
            base.inputs[4],
        ],
        document_options: options,
        document_index: index,
        parameters: if c.parameters.len() == 0 {
            base.parameters
        } else {
            c.parameters.map_values(
                |p: ParamView|
                    (filled_input(key_placeholder(), p.0), filled_input(value_placeholder(), p.1)),
            )
        },
        ..base
    }
}

/// Why the form cannot give a connection.
#[derive(Debug)]
pub enum FormFault<T> {
    /// Name or Target is blank.
    Required,
    /// The parameter row with this number (from 1) has a key or a value
    /// but not both.
    ParameterIncomplete(usize),
    /// This parameter key is given twice.
    DuplicateKey(T),
}

pub type FormError = FormFault<String>;

impl View for FormFault<String> {
    type V = FormFault<Seq<char>>;

    open spec fn view(&self) -> FormFault<Seq<char>> {
        match self {
            FormFault::Required => FormFault::Required,
            FormFault::ParameterIncomplete(n) => FormFault::ParameterIncomplete(*n),
            FormFault::DuplicateKey(k) => FormFault::DuplicateKey(k@),
        }
    }
}

pub open spec fn form_message(f: FormFault<Seq<char>>) -> Seq<char> {
    match f {
        FormFault::Required => "Name and Target are required"@,
        FormFault::ParameterIncomplete(n) => "Parameter "@ + decimal(n as nat)
            + " needs both a key and a value"@,
        FormFault::DuplicateKey(k) => "Duplicate parameter key: "@ + k,
    }
}

impl FormFault<String> {
    pub fn message(&self) -> (r: String)
        ensures
            r@ == form_message(self@),
    {
        match self {
            FormFault::Required => String::from_str("Name and Target are required"),
            FormFault::ParameterIncomplete(n) => crate::config::joined3(
                "Parameter ",
                decimal_text(*n as u64).as_str(),
                " needs both a key and a value",
            ),
            FormFault::DuplicateKey(k) => joined("Duplicate parameter key: ", k.as_str()),
        }
    }
}

/// The key and value texts of the parameter rows.
pub open spec fn row_texts(rows: Seq<(InputView, InputView)>) -> Seq<(Seq<char>, Seq<char>)> {
    rows.map_values(|r: (InputView, InputView)| (r.0.value, r.1.value))
}

/// The parameters that the rows give, trimmed, read in order: rows with
/// neither key nor value are skipped.
pub open spec fn rows_params(rows: Seq<(Seq<char>, Seq<char>)>) -> Result<Seq<ParamView>, FormFault<Seq<char>>>
    decreases rows.len(),
{
    if rows.len() == 0 {
        Ok(Seq::empty())
    } else {
        match rows_params(rows.drop_last()) {
            Err(e) => Err(e),
            Ok(acc) => {
                let k = trim(rows.last().0);
                let v = trim(rows.last().1);
                if k.len() == 0 && v.len() == 0 {
                    Ok(acc)
                } else if k.len() == 0 || v.len() == 0 {
                    Err(FormFault::ParameterIncomplete(rows.len() as usize))
                } else if lookup(acc, k) is Some {
                    Err(FormFault::DuplicateKey(k))
                } else {
                    Ok(put(acc, k, v))
                }
            },
        }
    }
}

/// `None` for the empty text.
pub open spec fn optional(s: Seq<char>) -> Option<Seq<char>> {
    if s.len() == 0 {
        None
    } else {
        Some(s)
    }
}

/// The connection that the form describes, trimmed, or why there is none.
pub open spec fn form_connection(f: FormView) -> Result<ConnectionView, FormFault<Seq<char>>> {
    let name = trim(f.inputs[0].value);
    let target = trim(f.inputs[1].value);
    if name.len() == 0 || target.len() == 0 {
        Err(FormFault::Required)
    } else {
        match rows_params(row_texts(f.parameters)) {
            Err(e) => Err(e),
            Ok(p) => Ok(
                ConnectionView {
                    name,
                    target,
                    region: optional(trim(f.inputs[2].value)),
                    profile: optional(trim(f.inputs[3].value)),
                    document_name: optional(f.document_options[f.document_index]),
                    keep_on_exit: f.keep_on_exit,
                    parameters: p,
                    extra_args: Seq::empty(),
                },
            ),
        }
    }
}

/// A row holds neither key nor value.
pub open spec fn row_empty(r: (InputView, InputView)) -> bool {
    r.0.value.len() == 0 && r.1.value.len() == 0
}

/// Tab: the next input; past the last, a new parameter row when the last
/// row is in use, else the action row (on Cancel).
pub open spec fn after_next_field(f: FormView) -> FormView {
    let g = FormView { document_open: false, ..f };
    if f.active + 1 < field_count(f) {
        FormView { active: f.active + 1, ..g }
    } else if !row_empty(f.parameters.last()) {
        FormView { parameters: f.parameters.push(blank_row()), active: f.active + 1, ..g }
    } else {
        FormView { action: Some(FormAction::Cancel), ..g }
    }
}

/// Shift-Tab: the previous input, from the first back to the last.
pub open spec fn after_previous_field(f: FormView) -> FormView {
    FormView {
        document_open: false,
        active: if f.active == 0 {
            field_count(f) - 1
        } else {
            f.active - 1
        },
        ..f
    }
}

/// Ctrl-D: drops the active parameter row, or blanks it when it is the
/// only one; does nothing on the fields.
pub open spec fn after_remove_parameter(f: FormView) -> FormView {
    if f.active < f.inputs.len() {
        f
    } else if f.parameters.len() == 1 {
        FormView { parameters: seq![blank_row()], active: f.inputs.len() as int, ..f }
    } else {
        let p = f.parameters.remove((f.active - f.inputs.len()) / 2);
        let last = f.inputs.len() + 2 * p.len() - 1;
        FormView { parameters: p, active: if f.active < last { f.active } else { last }, ..f }
    }
}

/// The document choice moved by `delta`, wrapping at both ends.
pub open spec fn after_select_document(f: FormView, delta: int) -> FormView {
    let count = f.document_options.len() as int;
    FormView {
        document_index: if delta < 0 {
            if f.document_index == 0 {
                count - 1
            } else {
                f.document_index - 1
            }
        } else {
            (f.document_index + delta) % count
        },
        ..f
    }
}

/// How the selected document is shown.
pub open spec fn document_text(f: FormView) -> Seq<char> {
    let d = f.document_options[f.document_index];
    if d.len() == 0 {
        "(none)"@
    } else {
        d
    }
}

pub struct ConnectionForm {
    edit_name: Option<String>,
    keep_on_exit: bool,
    active: usize,
    action: Option<FormAction>,
    fields: Vec<FormField>,
    document_options: Vec<String>,
    document_index: usize,
    document_open: bool,
    parameters: Vec<ParameterRow>,
}

pub open spec fn rows_view(v: Seq<ParameterRow>) -> Seq<(InputView, InputView)> {
    v.map_values(|r: ParameterRow| (r.key@, r.value@))
}

pub open spec fn labels_view(v: Seq<FormField>) -> Seq<Seq<char>> {
    v.map_values(|f: FormField| f.label@)
}

pub open spec fn inputs_view(v: Seq<FormField>) -> Seq<InputView> {
    v.map_values(|f: FormField| f.input@)
}

impl View for ConnectionForm {
    type V = FormView;

    closed spec fn view(&self) -> FormView {
        FormView {
            edit_name: opt_view(self.edit_name),
            keep_on_exit: self.keep_on_exit,
            active: self.active as int,
            action: self.action,
            labels: labels_view(self.fields@),
            inputs: inputs_view(self.fields@),
            document_options: crate::config::texts_view(self.document_options@),
            document_index: self.document_index as int,
            document_open: self.document_open,
            parameters: rows_view(self.parameters@),
        }
    }
}

impl ParameterRow {
    pub fn new() -> (r: ParameterRow)
        ensures
            (r.key@, r.value@) == blank_row(),
    {
        ParameterRow { key: TextInput::new("e.g. host"), value: TextInput::new("e.g. db.example.test") }
    }

    pub fn from_values(key: String, value: String) -> (r: ParameterRow)
        ensures
            r.key@ == filled_input(key_placeholder(), key@),
            r.value@ == filled_input(value_placeholder(), value@),
    {
        ParameterRow {
            key: TextInput::with_value("e.g. host", key),
            value: TextInput::with_value("e.g. db.example.test", value),
        }
    }

    pub fn is_empty(&self) -> (r: bool)
        ensures
            r == row_empty((self.key@, self.value@)),
    {
        self.key.value().as_str().is_empty() && self.value.value().as_str().is_empty()
    }
}

fn field(label: &'static str, placeholder: &'static str) -> (r: FormField)
    ensures
        r.label == label,
        r.input@ == blank_input(placeholder@),
{
    FormField { label, input: TextInput::new(placeholder) }
}

impl ConnectionForm {
    pub fn new() -> (r: ConnectionForm)
        ensures
            r@ == new_form(),
            form_ok(r@),
    {
        let mut fields: Vec<FormField> = Vec::new();
        fields.push(field("Name", "e.g. demo-db"));
        fields.push(field("Target", "e.g. i-0123456789abcdef0"));
        fields.push(field("Region", "e.g. us-west-2"));
        fields.push(field("Profile", "e.g. example-profile (optional)"));
        fields.push(field("Document", "e.g. AWS-StartPortForwardingSessionToRemoteHost"));
        let mut document_options: Vec<String> = Vec::new();
        document_options.push(String::new());
        document_options.push(String::from_str("AWS-StartInteractiveCommand"));
        document_options.push(String::from_str("AWS-StartPortForwardingSession"));
        document_options.push(String::from_str("AWS-StartPortForwardingSessionToRemoteHost"));
        let mut parameters: Vec<ParameterRow> = Vec::new();
        parameters.push(ParameterRow::new());
        let r = ConnectionForm {
            edit_name: None,
            keep_on_exit: false,
            active: 0,
            action: None,
            fields,
            document_options,
            document_index: 0,
            document_open: false,
            parameters,
        };
        assert(r@.labels =~= new_form().labels);
        assert(r@.inputs =~= new_form().inputs);
        assert(r@.document_options =~= new_form().document_options);
        assert(r@.parameters =~= new_form().parameters);
        r
    }

    pub fn edit_name(&self) -> (r: &Option<String>)
        ensures
            opt_view(*r) == self@.edit_name,
    {
        &self.edit_name
    }

    pub fn active(&self) -> (r: usize)
        ensures
            r == self@.active,
    {
        self.active
    }

    pub fn action(&self) -> (r: Option<FormAction>)
        ensures
            r == self@.action,
    {
        self.action
    }

    pub fn set_action(&mut self, action: Option<FormAction>)
        ensures
            final(self)@ == (FormView { action: action, ..old(self)@ }),
    {
        self.action = action;
    }

    pub fn document_open(&self) -> (r: bool)
        ensures
            r == self@.document_open,
    {
        self.document_open
    }

    pub fn set_document_open(&mut self, open: bool)
        ensures
            final(self)@ == (FormView { document_open: open, ..old(self)@ }),
    {
        self.document_open = open;
    }

    pub fn fields(&self) -> (r: &Vec<FormField>)
        ensures
            inputs_view(r@) == self@.inputs,
            labels_view(r@) == self@.labels,
    {
        &self.fields
    }

    pub fn parameters(&self) -> (r: &Vec<ParameterRow>)
        ensures
            rows_view(r@) == self@.parameters,
    {
        &self.parameters
    }

    pub fn document_options(&self) -> (r: &Vec<String>)
        ensures
            crate::config::texts_view(r@) == self@.document_options,
    {
        &self.document_options
    }

    pub fn document_index(&self) -> (r: usize)
        ensures
            r == self@.document_index,
    {
        self.document_index
    }

    pub fn field_count(&self) -> (r: usize)
        requires
            form_ok(self@),
        ensures
            r == field_count(self@),
    {
        self.fields.len() + self.parameters.len() * 2
    }

    /// Whether the form counts fewer inputs than `bound`.
    pub fn field_count_below(&self, bound: usize) -> (r: bool)
        requires
            form_ok(self@),
        ensures
            r == (field_count(self@) < bound),
    {
        self.field_count() < bound
    }

    pub fn document_display(&self) -> (r: &str)
        requires
            form_ok(self@),
        ensures
            r@ == document_text(self@),
    {
        let d = &self.document_options[self.document_index];
        assert(self@.document_options[self.document_index as int] == d@);
        if d.as_str().is_empty() {
            "(none)"
        } else {
            d.as_str()
        }
    }

    pub fn select_document(&mut self, delta: isize)
        requires
            form_ok(old(self)@),
            delta >= 0 ==> old(self)@.document_index + delta <= usize::MAX,
        ensures
            final(self)@ == after_select_document(old(self)@, delta as int),
            form_ok(final(self)@),
    {
        let count = self.document_options.len();
        if delta < 0 {
            self.document_index = if self.document_index == 0 {
                count - 1
            } else {
                self.document_index - 1
            };
        } else {
            self.document_index = (self.document_index + delta as usize) % count;
        }
    }

    pub fn previous_field(&mut self)
        requires
            form_ok(old(self)@),
        ensures
            final(self)@ == after_previous_field(old(self)@),
            form_ok(final(self)@),
    {
        self.document_open = false;
        self.active = if self.active == 0 {
            self.field_count() - 1
        } else {
            self.active - 1
        };
    }

    pub fn next_field(&mut self)
        requires
            form_ok(old(self)@),
            row_room(old(self)@),
        ensures
            final(self)@ == after_next_field(old(self)@),
            form_ok(final(self)@),
    {
        self.document_open = false;
        if self.active + 1 < self.field_count() {
            self.active = self.active + 1;
            return;
        }
        let n = self.parameters.len();
        let last_in_use = !self.parameters[n - 1].is_empty();
        assert(self@.parameters.last() == (self.parameters@[n - 1].key@, self.parameters@[n - 1].value@));
        if last_in_use {
            let ghost before = self.parameters@;
            let row = ParameterRow::new();
            self.parameters.push(row);
            assert(self.parameters@ == before.push(row));
            assert(rows_view(self.parameters@) =~= rows_view(before).push(blank_row()));
            self.active = self.active + 1;
        } else {
            self.action = Some(FormAction::Cancel);
        }
    }

    pub fn remove_active_parameter(&mut self)
        requires
            form_ok(old(self)@),
        ensures
            final(self)@ == after_remove_parameter(old(self)@),
            form_ok(final(self)@),
    {
        if self.active < self.fields.len() {
            return;
        }
        let index = (self.active - self.fields.len()) / 2;
        if self.parameters.len() == 1 {
            let mut rows: Vec<ParameterRow> = Vec::new();
            rows.push(ParameterRow::new());
            self.parameters = rows;
            assert(rows_view(self.parameters@) =~= seq![blank_row()]);
            self.active = self.fields.len();
            return;
        }
        let ghost before = self.parameters@;
        let _removed = self.parameters.remove(index);
        assert(rows_view(self.parameters@) =~= rows_view(before).remove(index as int));
        let last = self.fields.len() + self.parameters.len() * 2 - 1;
        if self.active > last {
            self.active = last;
        }
    }
}

/// A form for a connection with this many parameters keeps its input
/// count well inside a `usize`.
pub open spec fn rows_fit(n: int) -> bool {
    2 * n + 9 < usize::MAX
}

proof fn lemma_option_found(opts: Seq<Seq<char>>, d: Seq<char>, i: int)
    requires
        0 <= i < opts.len(),
        opts[i] == d,
        forall|j: int| 0 <= j < i ==> opts[j] != d,
    ensures
        option_position(opts, d) == Some(i),
    decreases i,
{
    if i > 0 {
        lemma_option_found(opts.drop_first(), d, i - 1);
    }
}

proof fn lemma_option_missing(opts: Seq<Seq<char>>, d: Seq<char>)
    requires
        forall|j: int| 0 <= j < opts.len() ==> opts[j] != d,
    ensures
        option_position(opts, d) is None,
    decreases opts.len(),
{
    if opts.len() > 0 {
        lemma_option_missing(opts.drop_first(), d);
    }
}

fn find_option(opts: &Vec<String>, d: &String) -> (r: Option<usize>)
    ensures
        r matches Some(i) ==> i < opts.len() && option_position(crate::config::texts_view(opts@), d@)
            == Some(i as int),
        r is None ==> option_position(crate::config::texts_view(opts@), d@) is None,
{
    let ghost t = crate::config::texts_view(opts@);
    let mut i: usize = 0;
    while i < opts.len()
        invariant
            t == crate::config::texts_view(opts@),
            i <= opts.len(),
            forall|j: int| 0 <= j < i ==> t[j] != d@,
        decreases opts.len() - i,
    {
        assert(t[i as int] == opts@[i as int]@);
        if opts[i] == *d {
            proof {
                lemma_option_found(t, d@, i as int);
            }
            return Some(i);
        }
        i = i + 1;
    }
    proof {
        lemma_option_missing(t, d@);
    }
    None
}

fn unwrap_or_empty(o: &Option<String>) -> (r: String)
    ensures
        r@ == or_empty(opt_view(*o)),
{
    match o {
        Some(s) => s.clone(),
        None => String::new(),
    }
}

fn optional_value(value: String) -> (r: Option<String>)
    ensures
        opt_view(r) == optional(value@),
{
    if value.as_str().is_empty() {
        None
    } else {
        Some(value)
    }
}

impl ConnectionForm {
    /// Applies an edit to the input the cursor is in.
    pub fn edit_active(&mut self, e: InputEdit)
        requires
            form_ok(old(self)@),
        ensures
            final(self)@ == with_active_input(old(self)@, edited(active_input(old(self)@), e)),
            form_ok(final(self)@),
    {
        let ghost f = self@;
        let nf = self.fields.len();
        if self.active < nf {
            let i = self.active;
            let ghost before = self.fields@;
            let mut fl = self.fields.remove(i);
            assert(fl == before[i as int]);
            fl.input.apply(e);
            self.fields.insert(i, fl);
            assert(self.fields@ =~= before.update(i as int, fl));
            assert(inputs_view(self.fields@) =~= f.inputs.update(i as int, fl.input@));
            assert(labels_view(self.fields@) =~= f.labels);
        } else {
            let r = (self.active - nf) / 2;
            let ghost before = self.parameters@;
            let mut row = self.parameters.remove(r);
            assert(row == before[r as int]);
            if (self.active - nf) % 2 == 0 {
                row.key.apply(e);
            } else {
                row.value.apply(e);
            }
            self.parameters.insert(r, row);
            assert(self.parameters@ =~= before.update(r as int, row));
            assert(rows_view(self.parameters@) =~= f.parameters.update(r as int, (row.key@, row.value@)));
        }
    }

    /// The form that edits `connection`.
    pub fn from_connection(connection: &ConnectionConfig) -> (r: ConnectionForm)
        requires
            rows_fit(connection@.parameters.len() as int),
        ensures
            r@ == form_for(connection@),
            form_ok(r@),
    {
        let mut form = ConnectionForm::new();
        let ghost base = form@;
        form.edit_name = Some(connection.name.clone());
        form.keep_on_exit = connection.keep_on_exit;
        let mut fields: Vec<FormField> = Vec::new();
        fields.push(FormField {
            label: "Name",
            input: TextInput::with_value("e.g. demo-db", connection.name.clone()),
        });
        fields.push(FormField {
            label: "Target",
            input: TextInput::with_value("e.g. i-0123456789abcdef0", connection.target.clone()),
        });
        fields.push(FormField {
            label: "Region",
            input: TextInput::with_value("e.g. us-west-2", unwrap_or_empty(&connection.region)),
        });
        fields.push(FormField {
            label: "Profile",
            input: TextInput::with_value(
                "e.g. example-profile (optional)",
                unwrap_or_empty(&connection.profile),
            ),
        });
        fields.push(field("Document", "e.g. AWS-StartPortForwardingSessionToRemoteHost"));
        form.fields = fields;
        assert(form@.labels =~= base.labels);
        assert(form@.inputs =~= form_for(connection@).inputs);
        match &connection.document_name {
            None => {},
            Some(d) => {
                let pos = find_option(&form.document_options, d);
                if let Some(i) = pos {
                    form.document_index = i;
                } else {
                    let ghost before = form.document_options@;
                    let dc = d.clone();
                    form.document_options.push(dc);
                    assert(form.document_options@ == before.push(dc));
                    assert(form@.document_options =~= standard_documents().push(d@));
                    form.document_index = 4;
                }
            },
        }
        let entries = connection.parameters.entries();
        if entries.len() > 0 {
            let mut rows: Vec<ParameterRow> = Vec::new();
            let ghost target_rows = form_for(connection@).parameters;
            let mut i: usize = 0;
            while i < entries.len()
                invariant
                    pairs_view(entries@) == connection@.parameters,
                    entries@.len() == connection@.parameters.len(),
                    target_rows == form_for(connection@).parameters,
                    target_rows.len() == entries@.len(),
                    i <= entries.len(),
                    rows.len() == i,
                    rows_view(rows@) == target_rows.take(i as int),
                decreases entries.len() - i,
            {
                let row = ParameterRow::from_values(entries[i].0.clone(), entries[i].1.clone());
                let ghost rb = rows@;
                rows.push(row);
                assert(rows@ == rb.push(row));
                assert(rows_view(rows@) =~= target_rows.take(i + 1));
                i = i + 1;
            }
            assert(target_rows.take(i as int) =~= target_rows);
            form.parameters = rows;
        }
        assert(form@ == form_for(connection@));
        form
    }

    /// The connection that the form describes, or why there is none.
    pub fn to_connection(&self) -> (r: Result<ConnectionConfig, FormError>)
        requires
            form_ok(self@),
        ensures
            form_connection(self@) matches Ok(c) ==> (r matches Ok(d) && d@ == c),
            form_connection(self@) matches Err(f) ==> (r matches Err(e) && e@ == f),
    {
        let name = trimmed(self.fields[0].input.value().as_str());
        let target = trimmed(self.fields[1].input.value().as_str());
        assert(self@.inputs[0] == self.fields@[0].input@);
        assert(self@.inputs[1] == self.fields@[1].input@);
        assert(self@.inputs[2] == self.fields@[2].input@);
        assert(self@.inputs[3] == self.fields@[3].input@);
        if name.as_str().is_empty() || target.as_str().is_empty() {
            return Err(FormFault::Required);
        }
        let ghost rows = row_texts(self@.parameters);
        let mut parameters = Parameters::new();
        let mut index: usize = 0;
        assert(rows.take(0) =~= Seq::<(Seq<char>, Seq<char>)>::empty());
        while index < self.parameters.len()
            invariant
                form_ok(self@),
                trim(self@.inputs[0].value).len() != 0,
                trim(self@.inputs[1].value).len() != 0,
                rows == row_texts(self@.parameters),
                rows.len() == self.parameters.len(),
                index <= self.parameters.len(),
                rows_params(rows.take(index as int)) == Ok::<Seq<ParamView>, FormFault<Seq<char>>>(
                    parameters@,
                ),
            decreases self.parameters.len() - index,
        {
            let row = &self.parameters[index];
            let key = trimmed(row.key.value().as_str());
            let parameter = trimmed(row.value.value().as_str());
            let ghost pre = rows.take(index + 1);
            assert(pre.drop_last() =~= rows.take(index as int));
            assert(pre.last() == (row.key@.value, row.value@.value));
            assert(pre.len() == index + 1);
            if key.as_str().is_empty() && parameter.as_str().is_empty() {
                index = index + 1;
                continue;
            }
            if key.as_str().is_empty() || parameter.as_str().is_empty() {
                proof {
                    lemma_rows_err_stays(rows, index + 1, rows.len() as int);
                    assert(rows.take(rows.len() as int) =~= rows);
                }
                return Err(FormFault::ParameterIncomplete(index + 1));
            }
            let previous = parameters.insert(key.clone(), parameter);
            if previous.is_some() {
                proof {
                    lemma_rows_err_stays(rows, index + 1, rows.len() as int);
                    assert(rows.take(rows.len() as int) =~= rows);
                }
                return Err(FormFault::DuplicateKey(key));
            }
            index = index + 1;
        }
        assert(rows.take(index as int) =~= rows);
        let d = &self.document_options[self.document_index];
        assert(self@.document_options[self.document_index as int] == d@);
        let document_name = if d.as_str().is_empty() {
            None
        } else {
            Some(d.clone())
        };
        let region = optional_value(trimmed(self.fields[2].input.value().as_str()));
        let profile = optional_value(trimmed(self.fields[3].input.value().as_str()));
        let r = ConnectionConfig {
            name,
            target,
            region,
            profile,
            document_name,
            keep_on_exit: self.keep_on_exit,
            parameters,
            extra_args: Vec::new(),
        };
        assert(crate::config::texts_view(r.extra_args@) =~= Seq::<Seq<char>>::empty());
        Ok(r)
    }
}

proof fn lemma_rows_err_stays(rows: Seq<(Seq<char>, Seq<char>)>, i: int, n: int)
    requires
        0 <= i <= n <= rows.len(),
        rows_params(rows.take(i)) is Err,
    ensures
        rows_params(rows.take(n)) == rows_params(rows.take(i)),
    decreases n,
{
    if n > i {
        lemma_rows_err_stays(rows, i, n - 1);
        assert(rows.take(n).drop_last() =~= rows.take(n - 1));
    }
}

/// Setting a key greater than every listed key appends it.
proof fn lemma_put_last(s: Seq<ParamView>, k: Seq<char>, v: Seq<char>)
    requires
        forall|i: int| 0 <= i < s.len() ==> text_lt(#[trigger] s[i].0, k),
    ensures
        put(s, k, v) == s.push((k, v)),
    decreases s.len(),
{
    if s.len() > 0 {
        lemma_put_after(s, k, v);
        let t = s.drop_first();
        assert forall|i: int| 0 <= i < t.len() implies text_lt(#[trigger] t[i].0, k) by {
            assert(t[i] == s[i + 1]);
        }
        lemma_put_last(t, k, v);
        assert(seq![s[0]] + t.push((k, v)) =~= s.push((k, v)));
    } else {
        assert(seq![(k, v)] =~= s.push((k, v)));
    }
}

/// Every key and value is already trimmed and not empty.
pub open spec fn trimmed_pairs(p: Seq<ParamView>) -> bool {
    forall|i: int|
        0 <= i < p.len() ==> {
            &&& trim((#[trigger] p[i]).0) == p[i].0
            &&& p[i].0.len() > 0
            &&& trim(p[i].1) == p[i].1
            &&& p[i].1.len() > 0
        }
}

/// Rows that already hold a trimmed parameter listing give it back.
proof fn lemma_rows_give_back(p: Seq<ParamView>)
    requires
        ascending(p),
        trimmed_pairs(p),
    ensures
        rows_params(p) == Ok::<Seq<ParamView>, FormFault<Seq<char>>>(p),
    decreases p.len(),
{
    if p.len() > 0 {
        let q = p.drop_last();
        assert(ascending(q)) by {
            assert forall|i: int, j: int| 0 <= i < j < q.len() implies text_lt(
                #[trigger] q[i].0,
                #[trigger] q[j].0,
            ) by {
                assert(q[i] == p[i] && q[j] == p[j]);
            }
        }
        assert(trimmed_pairs(q)) by {
            assert forall|i: int| 0 <= i < q.len() implies trim((#[trigger] q[i]).0) == q[i].0
                && q[i].0.len() > 0 && trim(q[i].1) == q[i].1 && q[i].1.len() > 0 by {
                assert(q[i] == p[i]);
            }
        }
        lemma_rows_give_back(q);
        let k = p.last().0;
        assert(trim(p[p.len() - 1].0) == p[p.len() - 1].0);
        assert forall|j: int| 0 <= j < q.len() implies lookup_miss(q, k, j) by {
            lemma_ascending_unique(p, j, p.len() - 1);
        }
        lemma_lookup_missing(q, k);
        assert forall|i: int| 0 <= i < q.len() implies text_lt(#[trigger] q[i].0, k) by {
            assert(q[i] == p[i]);
        }
        let last = p[p.len() - 1];
        assert(p.last() == last);
        assert(trim(last.0) == last.0 && last.0.len() > 0);
        assert(trim(last.1) == last.1 && last.1.len() > 0);
        lemma_put_last(q, k, last.1);
        assert(q.push((k, last.1)) =~= p);
        assert(rows_params(p) == Ok::<Seq<ParamView>, FormFault<Seq<char>>>(put(q, k, last.1)));
    } else {
        assert(p =~= Seq::<ParamView>::empty());
    }
}

proof fn lemma_option_position(opts: Seq<Seq<char>>, d: Seq<char>)
    ensures
        option_position(opts, d) matches Some(i) ==> 0 <= i < opts.len() && opts[i] == d,
    decreases opts.len(),
{
    if opts.len() > 0 && opts[0] != d {
        lemma_option_position(opts.drop_first(), d);
    }
}

/// The connections that the form shows whole: texts already trimmed, a
/// name and a target, a region, profile and document that are absent or
/// not blank, trimmed parameters, and no extra arguments, for which the
/// form has no field.
pub open spec fn editable(c: ConnectionView) -> bool {
    &&& trim(c.name) == c.name && c.name.len() > 0
    &&& trim(c.target) == c.target && c.target.len() > 0
    &&& c.region matches Some(r) ==> trim(r) == r && r.len() > 0
    &&& c.profile matches Some(p) ==> trim(p) == p && p.len() > 0
    &&& c.document_name matches Some(d) ==> d.len() > 0
    &&& ascending(c.parameters)
    &&& trimmed_pairs(c.parameters)
    &&& c.extra_args.len() == 0
}

/// Opening a connection in the form and saving it unchanged gives back
/// the same connection.
pub proof fn lemma_form_round_trip(c: ConnectionView)
    requires
        editable(c),
    ensures
        form_connection(form_for(c)) == Ok::<ConnectionView, FormFault<Seq<char>>>(c),
{
    let f = form_for(c);
    let empty = Seq::<char>::empty();
    assert(trim(empty) == empty);
    assert(f.inputs[0].value == c.name);
    assert(f.inputs[1].value == c.target);
    assert(optional(trim(f.inputs[2].value)) == c.region);
    assert(optional(trim(f.inputs[3].value)) == c.profile);
    lemma_option_position(standard_documents(), or_empty(c.document_name));
    assert(optional(f.document_options[f.document_index]) == c.document_name);
    if c.parameters.len() == 0 {
        let rows = row_texts(f.parameters);
        assert(f.parameters == seq![blank_row()]);
        assert(rows.len() == 1);
        assert(rows.last() == (empty, empty));
        assert(rows.drop_last() =~= Seq::<ParamView>::empty());
        assert(c.parameters =~= Seq::<ParamView>::empty());
        assert(rows_params(rows.drop_last()) == Ok::<Seq<ParamView>, FormFault<Seq<char>>>(
            Seq::empty(),
        ));
        assert(rows_params(row_texts(f.parameters)) == Ok::<Seq<ParamView>, FormFault<Seq<char>>>(
            c.parameters,
        ));
    } else {
        assert(row_texts(f.parameters) =~= c.parameters);
        lemma_rows_give_back(c.parameters);
    }
    assert(c.extra_args =~= Seq::<Seq<char>>::empty());
}

} // verus!
