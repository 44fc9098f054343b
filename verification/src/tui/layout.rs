//! Screen geometry: the column widths of the connection table and the
//! placement of centred pop-ups, in terminal cells.
use vstd::prelude::*;
use vstd::string::*;
use crate::config::{joined, joined3, opt_view, ConnectionConfig, ConnectionView};
use crate::cli::{find_named, first_named};
use crate::params::{pairs_view, ParamView};
use crate::session::{session_statuses_view, ConnectionStatus, SessionStatusView};
use crate::ssm::pair_text;
use crate::tui::app::{format_state, state_name, visible_list, App};

verus! {

/// How many cells a text takes: one per character, capped at `u16::MAX`.
pub open spec fn width_of(s: Seq<char>) -> int {
    if s.len() > 0xffff {
        0xffff
    } else {
        s.len() as int
    }
}

pub fn display_width(value: &str) -> (r: u16)
    ensures
        r == width_of(value@),
{
    let n = value.unicode_len();
    if n > 0xffff {
        0xffff
    } else {
        n as u16
    }
}

/// What the DOCUMENT column shows for a session.
pub open spec fn shown_document(d: Option<Seq<char>>) -> Seq<char> {
    match d {
        Some(name) => name,
        None => "-"@,
    }
}

/// The widest NAME cell of the statuses, 0 when there are none.
pub open spec fn widest_name(v: Seq<SessionStatusView>) -> int
    decreases v.len(),
{
    if v.len() == 0 {
        0
    } else {
        let rest = widest_name(v.drop_last());
        let w = width_of(v.last().name);
        if rest < w {
            w
        } else {
            rest
        }
    }
}

/// The widest DOCUMENT cell of the statuses, 0 when there are none.
pub open spec fn widest_document(v: Seq<SessionStatusView>) -> int
    decreases v.len(),
{
    if v.len() == 0 {
        0
    } else {
        let rest = widest_document(v.drop_last());
        let w = width_of(shown_document(v.last().document_name));
        if rest < w {
            w
        } else {
            rest
        }
    }
}

pub open spec fn clamped_to(x: int, lo: int, hi: int) -> int {
    if x < lo {
        lo
    } else if x > hi {
        hi
    } else {
        x
    }
}

/// The columns' widths before the table is fitted to the screen: NAME and
/// DOCUMENT follow their widest cell plus two, within bounds; STATE, TARGET,
/// PID and ERROR are fixed.
pub open spec fn initial_widths(v: Seq<SessionStatusView>) -> Seq<u16> {
    seq![
        clamped_to(widest_name(v) + 2, 20, 36) as u16,
        10u16,
        22u16,
        clamped_to(widest_document(v) + 2, 24, 50) as u16,
        7u16,
        14u16,
    ]
}

/// The narrowest each column may become.
pub open spec fn minimum(i: int) -> int {
    if i == 0 {
        18
    } else if i == 1 {
        10
    } else if i == 2 {
        18
    } else if i == 3 {
        20
    } else if i == 4 {
        7
    } else {
        8
    }
}

/// The order in which columns give up a cell: ERROR, DOCUMENT, TARGET, NAME.
pub open spec fn shrink_index(k: int) -> int {
    if k == 0 {
        5
    } else if k == 1 {
        3
    } else if k == 2 {
        2
    } else {
        0
    }
}

pub open spec fn total(w: Seq<u16>) -> int {
    w[0] + w[1] + w[2] + w[3] + w[4] + w[5]
}

/// One round, from position `k` of the shrink order on: each column above
/// its minimum gives up one cell, and the round stops as soon as the table
/// fits.  Also says whether any column gave up a cell.
pub open spec fn shrink_round(w: Seq<u16>, avail: int, k: int) -> (Seq<u16>, bool)
    decreases 4 - k,
{
    if k >= 4 || k < 0 {
        (w, false)
    } else {
        let i = shrink_index(k);
        if w[i] > minimum(i) {
            let narrower = w.update(i, (w[i] - 1) as u16);
            if total(narrower) <= avail {
                (narrower, true)
            } else {
                (shrink_round(narrower, avail, k + 1).0, true)
            }
        } else {
            shrink_round(w, avail, k + 1)
        }
    }
}

/// How many cells the shrinkable columns have above their minimums.
pub open spec fn slack(w: Seq<u16>) -> nat {
    let d = |i: int| if w[i] > minimum(i) { (w[i] - minimum(i)) as nat } else { 0nat };
    d(0) + d(2) + d(3) + d(5)
}

pub proof fn lemma_round_shrinks(w: Seq<u16>, avail: int, k: int)
    requires
        w.len() == 6,
    ensures
        shrink_round(w, avail, k).0.len() == 6,
        shrink_round(w, avail, k).1 ==> slack(shrink_round(w, avail, k).0) < slack(w),
        !shrink_round(w, avail, k).1 ==> shrink_round(w, avail, k).0 == w,
    decreases 4 - k,
{
    if 0 <= k < 4 {
        let i = shrink_index(k);
        if w[i] > minimum(i) {
            let narrower = w.update(i, (w[i] - 1) as u16);
            assert(slack(narrower) < slack(w));
            lemma_round_shrinks(narrower, avail, k + 1);
        } else {
            lemma_round_shrinks(w, avail, k + 1);
        }
    }
}

/// Rounds of shrinking until the table fits into `avail` cells, or until no
/// column can give up a cell.
pub open spec fn fitted(w: Seq<u16>, avail: int) -> Seq<u16>
    decreases slack(w),
{
    if w.len() != 6 || total(w) <= avail {
        w
    } else {
        let round = shrink_round(w, avail, 0);
        if !round.1 {
            w
        } else {
            proof {
                lemma_round_shrinks(w, avail, 0);
            }
            fitted(round.0, avail)
        }
    }
}

/// Every column is at least as wide as its minimum.
pub open spec fn above_minimums(w: Seq<u16>) -> bool {
    w.len() == 6 && forall|i: int| 0 <= i < 6 ==> #[trigger] w[i] >= minimum(i)
}

/// The narrowest table: every column at its minimum.
pub open spec fn narrowest() -> Seq<u16> {
    seq![18u16, 10u16, 18u16, 20u16, 7u16, 8u16]
}

proof fn lemma_round_keeps_minimums(w: Seq<u16>, avail: int, k: int)
    requires
        above_minimums(w),
        0 <= k <= 4,
    ensures
        above_minimums(shrink_round(w, avail, k).0),
        !shrink_round(w, avail, k).1 ==> forall|j: int|
            k <= j < 4 ==> w[shrink_index(j)] <= minimum(#[trigger] shrink_index(j)),
    decreases 4 - k,
{
    if k < 4 {
        let i = shrink_index(k);
        if w[i] > minimum(i) {
            let narrower = w.update(i, (w[i] - 1) as u16);
            assert(above_minimums(narrower));
            lemma_round_keeps_minimums(narrower, avail, k + 1);
        } else {
            lemma_round_keeps_minimums(w, avail, k + 1);
        }
    }
}

proof fn lemma_fitted_fits(w: Seq<u16>, avail: int)
    requires
        above_minimums(w),
    ensures
        above_minimums(fitted(w, avail)),
        total(fitted(w, avail)) <= avail || (fitted(w, avail)[0] == 18 && fitted(w, avail)[2] == 18
            && fitted(w, avail)[3] == 20 && fitted(w, avail)[5] == 8),
        fitted(w, avail)[1] == w[1] && fitted(w, avail)[4] == w[4],
    decreases slack(w),
{
    if total(w) > avail {
        let round = shrink_round(w, avail, 0);
        lemma_round_keeps_minimums(w, avail, 0);
        lemma_round_shrinks(w, avail, 0);
        if round.1 {
            lemma_round_fixed_columns(w, avail, 0);
            lemma_fitted_fits(round.0, avail);
        } else {
            assert(w[shrink_index(0)] <= minimum(shrink_index(0)));
            assert(w[shrink_index(1)] <= minimum(shrink_index(1)));
            assert(w[shrink_index(2)] <= minimum(shrink_index(2)));
            assert(w[shrink_index(3)] <= minimum(shrink_index(3)));
        }
    }
}

proof fn lemma_round_fixed_columns(w: Seq<u16>, avail: int, k: int)
    requires
        w.len() == 6,
    ensures
        shrink_round(w, avail, k).0[1] == w[1],
        shrink_round(w, avail, k).0[4] == w[4],
    decreases 4 - k,
{
    if 0 <= k < 4 {
        let i = shrink_index(k);
        if w[i] > minimum(i) {
            lemma_round_fixed_columns(w.update(i, (w[i] - 1) as u16), avail, k + 1);
        } else {
            lemma_round_fixed_columns(w, avail, k + 1);
        }
    }
}

/// The table fits the screen whenever it can: no column gets narrower
/// than its minimum, and the columns fill no more than the width inside
/// the border unless every column is already at its minimum.
pub proof fn lemma_table_fits(v: Seq<SessionStatusView>, available: u16)
    ensures
        above_minimums(column_widths(v, available)),
        total(column_widths(v, available)) + 2 <= available || column_widths(v, available)
            == narrowest(),
{
    let w = initial_widths(v);
    let avail: int = if available < 2 { 0 } else { available - 2 };
    assert(widest_name(v) >= 0 && widest_document(v) >= 0) by {
        lemma_widest_nonnegative(v);
    }
    assert(above_minimums(w));
    lemma_fitted_fits(w, avail);
    let r = fitted(w, avail);
    if total(r) > avail {
        assert(r =~= narrowest());
    }
}

proof fn lemma_widest_nonnegative(v: Seq<SessionStatusView>)
    ensures
        widest_name(v) >= 0,
        widest_document(v) >= 0,
    decreases v.len(),
{
    if v.len() > 0 {
        lemma_widest_nonnegative(v.drop_last());
    }
}

/// The widths of the six columns NAME, STATE, TARGET, DOCUMENT, PID and
/// ERROR on a screen `available` cells wide, two of which the border takes.
pub open spec fn column_widths(v: Seq<SessionStatusView>, available: u16) -> Seq<u16> {
    fitted(initial_widths(v), if available < 2 { 0 } else { available - 2 })
}

fn shrink_index_at(k: usize) -> (i: usize)
    requires
        k < 4,
    ensures
        i == shrink_index(k as int),
{
    if k == 0 {
        5
    } else if k == 1 {
        3
    } else if k == 2 {
        2
    } else {
        0
    }
}

fn minimum_at(i: usize) -> (m: u16)
    requires
        i < 6,
    ensures
        m == minimum(i as int),
{
    if i == 0 {
        18
    } else if i == 1 {
        10
    } else if i == 2 {
        18
    } else if i == 3 {
        20
    } else if i == 4 {
        7
    } else {
        8
    }
}

fn total_width(w: &Vec<u16>) -> (t: u32)
    requires
        w@.len() == 6,
    ensures
        t == total(w@),
{
    w[0] as u32 + w[1] as u32 + w[2] as u32 + w[3] as u32 + w[4] as u32 + w[5] as u32
}

fn shrink_from(w: &mut Vec<u16>, avail: u16, k: usize) -> (changed: bool)
    requires
        old(w)@.len() == 6,
        k <= 4,
    ensures
        (final(w)@, changed) == shrink_round(old(w)@, avail as int, k as int),
    decreases 4 - k,
{
    if k >= 4 {
        return false;
    }
    let i = shrink_index_at(k);
    let m = minimum_at(i);
    if w[i] > m {
        let narrower = w[i] - 1;
        w.set(i, narrower);
        if total_width(w) <= avail as u32 {
            true
        } else {
            shrink_from(w, avail, k + 1);
            true
        }
    } else {
        shrink_from(w, avail, k + 1)
    }
}

/// The widths of the table's columns, from the screen's width and the
/// statuses that the table lists.
pub fn table_widths(available_width: u16, statuses: &Vec<ConnectionStatus>) -> (r: [u16; 6])
    ensures
        r@ == column_widths(session_statuses_view(statuses@), available_width),
{
    let ghost v = session_statuses_view(statuses@);
    let mut name_width: u16 = 0;
    let mut document_width: u16 = 0;
    let mut j: usize = 0;
    while j < statuses.len()
        invariant
            v == session_statuses_view(statuses@),
            j <= statuses.len(),
            name_width == widest_name(v.take(j as int)),
            document_width == widest_document(v.take(j as int)),
        decreases statuses.len() - j,
    {
        proof {
            assert(v.take(j + 1).drop_last() =~= v.take(j as int));
        }
        let n = display_width(statuses[j].name.as_str());
        if name_width < n {
            name_width = n;
        }
        let d = match &statuses[j].document_name {
            Some(name) => display_width(name.as_str()),
            None => display_width("-"),
        };
        if document_width < d {
            document_width = d;
        }
        j = j + 1;
    }
    proof {
        assert(v.take(statuses.len() as int) =~= v);
    }
    let name_cells: u16 = if name_width > 34 {
        36
    } else if name_width < 18 {
        20
    } else {
        name_width + 2
    };
    let document_cells: u16 = if document_width > 48 {
        50
    } else if document_width < 22 {
        24
    } else {
        document_width + 2
    };
    let mut w: Vec<u16> = vec![name_cells, 10, 22, document_cells, 7, 14];
    let avail = available_width.saturating_sub(2);
    let ghost goal = column_widths(v, available_width);
    proof {
        assert(w@ =~= initial_widths(v));
    }
    loop
        invariant
            w@.len() == 6,
            fitted(w@, avail as int) == goal,
        ensures
            w@ == goal,
        decreases slack(w@),
    {
        if total_width(&w) <= avail as u32 {
            break;
        }
        let ghost before = w@;
        let changed = shrink_from(&mut w, avail, 0);
        proof {
            lemma_round_shrinks(before, avail as int, 0);
        }
        if !changed {
            break;
        }
    }
    let r = [w[0], w[1], w[2], w[3], w[4], w[5]];
    proof {
        assert(r@ =~= w@);
    }
    r
}

/// A rectangle of terminal cells.
#[derive(Clone, Copy, Debug, PartialEq, Eq, Structural)]
pub struct Area {
    pub x: u16,
    pub y: u16,
    pub width: u16,
    pub height: u16,
}

/// The rectangle lies on the screen: its far edges are addressable.
pub open spec fn on_screen(a: Area) -> bool {
    a.x + a.width <= 0xffff && a.y + a.height <= 0xffff
}

/// A rectangle at most `width` by `height` cells, centred in `area`.
pub open spec fn centered_in(area: Area, width: int, height: int) -> Area {
    let w = if width < area.width { width } else { area.width as int };
    let h = if height < area.height { height } else { area.height as int };
    Area {
        x: (area.x + (area.width - w) / 2) as u16,
        y: (area.y + (area.height - h) / 2) as u16,
        width: w as u16,
        height: h as u16,
    }
}

pub fn centered_width_rect(width: u16, height: u16, area: Area) -> (r: Area)
    requires
        on_screen(area),
    ensures
        r == centered_in(area, width as int, height as int),
{
    let w = if width < area.width {
        width
    } else {
        area.width
    };
    let h = if height < area.height {
        height
    } else {
        area.height
    };
    Area { x: area.x + (area.width - w) / 2, y: area.y + (area.height - h) / 2, width: w, height: h }
}

/// `percent_x` per cent of the area's width (the product saturating at
/// `u16::MAX` before the division), `height` rows, centred in `area`.
pub fn centered_fixed_rect(percent_x: u16, height: u16, area: Area) -> (r: Area)
    requires
        on_screen(area),
    ensures
        r == centered_in(
            area,
            (if area.width * percent_x > 0xffff { 0xffff } else { area.width * percent_x }) / 100,
            height as int,
        ),
{
    assert(area.width * percent_x <= 0xffff * 0xffff) by (nonlinear_arith)
        requires
            area.width <= 0xffff,
            percent_x <= 0xffff,
    ;
    let product: u32 = area.width as u32 * percent_x as u32;
    let scaled: u16 = if product > 0xffff {
        0xffff
    } else {
        product as u16
    };
    centered_width_rect(scaled / 100, height, area)
}

/// Where the document list opens: under its field, at most 78 cells wide,
/// one row per option plus the border, moved up when it would run past the
/// bottom of the screen.
pub open spec fn dropdown_at(screen: Area, anchor: Area, options: u16) -> Area {
    let height = options + 2;
    let room = if screen.height < height { 0 } else { screen.height - height };
    let below = anchor.y + anchor.height;
    Area {
        x: anchor.x,
        y: (if below < screen.y + room { below } else { screen.y + room }) as u16,
        width: if anchor.width < 78 { anchor.width } else { 78 },
        height: height as u16,
    }
}

pub fn dropdown_area(screen: Area, anchor: Area, options: u16) -> (r: Area)
    requires
        on_screen(screen),
        on_screen(anchor),
        options <= 0xffff - 2,
    ensures
        r == dropdown_at(screen, anchor, options),
{
    let height = options + 2;
    let max_y = screen.y + screen.height.saturating_sub(height);
    let below = anchor.y + anchor.height;
    Area {
        x: anchor.x,
        y: if below < max_y {
            below
        } else {
            max_y
        },
        width: if anchor.width < 78 {
            anchor.width
        } else {
            78
        },
        height,
    }
}

/// A cell count that saturates at `u16::MAX`.
pub open spec fn capped(x: int) -> int {
    if x > 0xffff {
        0xffff
    } else {
        x
    }
}

/// The rows that the connection form asks for: two per field and per
/// parameter row, one for the parameter header, two for the footer, one
/// more for the border, and the open document list's options plus its
/// border, each sum saturating at `u16::MAX`.
pub open spec fn form_rows(fields: int, parameters: int, dropdown: Option<u16>) -> int {
    let content = capped(capped(capped(capped(2 * fields) + 1) + capped(2 * parameters)) + 2);
    let extra = match dropdown {
        Some(d) => d + 2,
        None => 0,
    };
    capped(capped(content + 1) + extra)
}

fn add_capped(a: u16, b: u16) -> (r: u16)
    ensures
        r == capped(a + b),
{
    a.saturating_add(b)
}

fn double_capped(a: u16) -> (r: u16)
    ensures
        r == capped(2 * a),
{
    a.saturating_add(a)
}

pub fn form_height(fields: u16, parameters: u16, dropdown: Option<u16>) -> (r: u16)
    requires
        dropdown matches Some(d) ==> d <= 0xffff - 2,
    ensures
        r == form_rows(fields as int, parameters as int, dropdown),
{
    let content = add_capped(
        add_capped(add_capped(double_capped(fields), 1), double_capped(parameters)),
        2,
    );
    let extra: u16 = match dropdown {
        Some(d) => d + 2,
        None => 0,
    };
    add_capped(add_capped(content, 1), extra)
}

/// The question that the delete dialog asks.
pub open spec fn delete_question(name: Seq<char>) -> Seq<char> {
    "Delete connection '"@ + name + "'?"@
}

/// The question, and the dialog's width: the question's width and eight
/// cells of margin, within 32 to 60 cells.
pub fn delete_prompt(name: &str) -> (r: (String, u16))
    ensures
        r.0@ == delete_question(name@),
        r.1 == clamped_to(capped(width_of(delete_question(name@)) + 8), 32, 60),
{
    let message = joined3("Delete connection '", name, "'?");
    let width = add_capped(display_width(message.as_str()), 8);
    let clamped: u16 = if width < 32 {
        32
    } else if width > 60 {
        60
    } else {
        width
    };
    (message, clamped)
}

/// How the document list shows one option: a marker on the chosen one,
/// and `(none)` for the empty choice.
pub open spec fn choice_line(option: Seq<char>, chosen: bool) -> Seq<char> {
    (if chosen {
        "▶ "@
    } else {
        "  "@
    }) + (if option.len() == 0 {
        "(none)"@
    } else {
        option
    })
}

pub fn document_choices(options: &Vec<String>, chosen: usize) -> (r: Vec<String>)
    ensures
        r.len() == options.len(),
        forall|i: int|
            0 <= i < options.len() ==> #[trigger] r@[i]@ == choice_line(options@[i]@, i == chosen),
{
    let mut r: Vec<String> = Vec::new();
    let mut i: usize = 0;
    while i < options.len()
        invariant
            i <= options.len(),
            r.len() == i,
            forall|j: int| 0 <= j < i ==> #[trigger] r@[j]@ == choice_line(options@[j]@, j == chosen),
        decreases options.len() - i,
    {
        let marker = if i == chosen {
            "▶ "
        } else {
            "  "
        };
        let option = options[i].as_str();
        let label = if option.is_empty() {
            "(none)"
        } else {
            option
        };
        r.push(joined(marker, label));
        proof {
            assert(r@[i as int]@ =~= choice_line(options@[i as int]@, i == chosen));
        }
        i = i + 1;
    }
    r
}

/// The parameters as `key=value` pairs separated by a comma and a space.
pub open spec fn listed_pairs(s: Seq<ParamView>) -> Seq<char>
    decreases s.len(),
{
    if s.len() == 0 {
        Seq::empty()
    } else if s.len() == 1 {
        pair_text(s[0])
    } else {
        listed_pairs(s.drop_last()) + ", "@ + pair_text(s.last())
    }
}

/// What the details panel shows for the parameters: `-` when there are none.
pub open spec fn parameters_shown(s: Seq<ParamView>) -> Seq<char> {
    if s.len() == 0 {
        "-"@
    } else {
        listed_pairs(s)
    }
}

/// The rows of the details panel, label and value, for a status and the
/// connection it belongs to.
pub open spec fn details(status: SessionStatusView, c: ConnectionView) -> Seq<ParamView> {
    seq![
        ("NAME"@, c.name),
        ("STATE"@, state_name(status.state)),
        ("TARGET"@, c.target),
        ("REGION"@, shown_document(c.region)),
        ("PROFILE"@, shown_document(c.profile)),
        ("DOCUMENT"@, shown_document(c.document_name)),
        ("PARAMETERS"@, parameters_shown(c.parameters)),
    ]
}

fn dash_or(o: &Option<String>) -> (r: String)
    ensures
        r@ == shown_document(opt_view(*o)),
{
    match o {
        Some(v) => v.clone(),
        None => String::from_str("-"),
    }
}

fn text_pair(label: &str, value: String) -> (r: (String, String))
    ensures
        r.0@ == label@,
        r.1@ == value@,
{
    (String::from_str(label), value)
}

pub fn parameters_line(c: &ConnectionConfig) -> (r: String)
    ensures
        r@ == parameters_shown(c@.parameters),
{
    if c.parameters.is_empty() {
        return String::from_str("-");
    }
    let entries = c.parameters.entries();
    let ghost s = c@.parameters;
    let mut out = String::new();
    let mut i: usize = 0;
    while i < entries.len()
        invariant
            pairs_view(entries@) == s,
            s.len() == entries.len(),
            i <= entries.len(),
            out@ == listed_pairs(s.take(i as int)),
        decreases entries.len() - i,
    {
        let ghost t = s.take(i + 1);
        assert(t.drop_last() =~= s.take(i as int));
        assert(t.last() == (entries@[i as int].0@, entries@[i as int].1@));
        if i > 0 {
            out.append(", ");
        }
        out.append(entries[i].0.as_str());
        out.append("=");
        out.append(entries[i].1.as_str());
        proof {
            reveal_strlit(", ");
            reveal_strlit("=");
            if i == 0 {
                assert(out@ =~= pair_text(t.last()));
            } else {
                assert(out@ =~= listed_pairs(t.drop_last()) + ", "@ + pair_text(t.last()));
            }
        }
        i = i + 1;
    }
    assert(s.take(entries.len() as int) =~= s);
    out
}

pub fn detail_rows(status: &ConnectionStatus, c: &ConnectionConfig) -> (r: Vec<(String, String)>)
    ensures
        pairs_view(r@) == details(status@, c@),
{
    let mut r: Vec<(String, String)> = Vec::new();
    r.push(text_pair("NAME", c.name.clone()));
    r.push(text_pair("STATE", String::from_str(format_state(status.state))));
    r.push(text_pair("TARGET", c.target.clone()));
    r.push(text_pair("REGION", dash_or(&c.region)));
    r.push(text_pair("PROFILE", dash_or(&c.profile)));
    r.push(text_pair("DOCUMENT", dash_or(&c.document_name)));
    r.push(text_pair("PARAMETERS", parameters_line(c)));
    assert(pairs_view(r@) =~= details(status@, c@));
    r
}

/// What the details panel shows: the row at the selection, or the last
/// row when the selection is past it, with its connection's definition.
pub open spec fn shown_details(a: crate::tui::app::AppView) -> Option<Seq<ParamView>> {
    let v = visible_list(a);
    if v.len() == 0 {
        None
    } else {
        let k = if a.selected < v.len() { a.selected } else { v.len() - 1 };
        match first_named(a.config, v[k].name) {
            Some(i) => Some(details(v[k], a.config[i])),
            None => None,
        }
    }
}

pub fn selected_details(app: &App) -> (r: Option<Vec<(String, String)>>)
    ensures
        match r {
            Some(rows) => shown_details(app@) == Some(pairs_view(rows@)),
            None => shown_details(app@) is None,
        },
{
    let statuses = app.visible_statuses();
    if statuses.len() == 0 {
        return None;
    }
    let selected = app.selected();
    let k = if selected < statuses.len() {
        selected
    } else {
        statuses.len() - 1
    };
    let status = &statuses[k];
    assert(visible_list(app@)[k as int] == status@);
    match find_named(app.config(), &status.name) {
        Some(i) => Some(detail_rows(status, &app.config().connections[i])),
        None => None,
    }
}

} // verus!
