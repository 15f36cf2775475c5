//! The editing screen: its state, the messages it receives, and what each
//! message does to the state. Work outside the program (file dialogs,
//! reading and writing files, the clock) is returned as an `Effect` for
//! the caller to carry out; its outcome comes back through
//! `load_records`, `apply_command` or another message.
use vstd::prelude::*;
use std::collections::HashSet;
use crate::text::{lines, push_str, push_chars, chars_of, string_of, string_chars, trim, trim_chars};
use crate::date::{FuelDate, format_date_time, record_date_format};
use crate::fuel::{date_text_spec, Fuel, parsed_from, plain_field, color_spec, date_spec, split_record_spec, finish_spec, fuel_match, price_view, FieldsView, lemma_record_line_round_trip};
use crate::storage::{error_views, read_errors, record_line_numbers, FuelStorage, FuelParser, filter_by, unselected, oks, read_each, record_lines, removed_where};
use crate::condition::{Condition, ConditionOperator, condition_spec, condition_match};
use crate::command::Command;

verus! {

/// A message from the screen.
#[derive(Debug, Clone)]
pub enum Message {
    SelectFile,
    FileSelected(String),
    SaveAs,
    SaveInteractively,
    FileSaved(String),
    SelectCommandFile,
    CommandFileSelected(String),
    Add,
    DeleteSelected,
    SaveNow,
    ExecuteCommands,
    InputChanged(String),
    EditingDateChanged(String),
    EditingNameChanged(String),
    EditingPriceChanged(String),
    EditingColorChanged(String),
    ToggleRow(usize),
    CommitPendingRow,
    PasteNow,
    Dummy(String),
}

/// Work that a message asks of the world outside the program.
#[derive(Debug, Clone, PartialEq)]
pub enum Effect {
    /// Nothing to do.
    Nothing,
    /// Ask the user for a file to open; its path comes back as `FileSelected`.
    PickFile,
    /// Ask the user where to save; the path comes back as `FileSaved`.
    PickSaveFile,
    /// Read the file at this path and hand its text to `load_records`.
    LoadFile(String),
    /// Write the records, serialized, to the file at this path.
    WriteStorage(String),
    /// Read the command file at this path and apply its commands in order
    /// with `apply_command`.
    RunCommandFile(String),
    /// Read the clock and hand the reading to `fill_date`.
    FillDateNow,
    /// The message has no handler; report it.
    Unimplemented,
}

/// The state of the screen.
#[derive(Debug)]
pub struct AppState<P> {
    pub path: String,
    pub fuel_storage: FuelStorage<P>,
    pub add_pressed: bool,
    pub input_form: String,
    pub last_pending: bool,
    pub editing_date: String,
    pub editing_name: String,
    pub editing_price: String,
    pub editing_color: String,
    pub selected_rows: HashSet<usize>,
    pub some_string: String,
    pub command_path: String,
}

/// The contents of the screen state.
#[verifier::ext_equal]
pub struct AppView<P> {
    pub path: Seq<char>,
    pub records: Seq<Fuel<P>>,
    pub add_pressed: bool,
    pub input_form: Seq<char>,
    pub last_pending: bool,
    pub editing_date: Seq<char>,
    pub editing_name: Seq<char>,
    pub editing_price: Seq<char>,
    pub editing_color: Seq<char>,
    pub selected_rows: Set<usize>,
    pub some_string: Seq<char>,
    pub command_path: Seq<char>,
}

impl<P> View for AppState<P> {
    type V = AppView<P>;

    open spec fn view(&self) -> AppView<P> {
        AppView {
            path: self.path@,
            records: self.fuel_storage@,
            add_pressed: self.add_pressed,
            input_form: self.input_form@,
            last_pending: self.last_pending,
            editing_date: self.editing_date@,
            editing_name: self.editing_name@,
            editing_price: self.editing_price@,
            editing_color: self.editing_color@,
            selected_rows: self.selected_rows@,
            some_string: self.some_string@,
            command_path: self.command_path@,
        }
    }
}

/// The selection with row `i` switched: removed when it was selected,
/// added when it was not.
pub open spec fn toggle(s: Set<usize>, i: usize) -> Set<usize> {
    if s.contains(i) {
        s.remove(i)
    } else {
        s.insert(i)
    }
}

/// The line that the pending row makes: its name, date, price and colour,
/// separated by commas.
pub open spec fn pending_line<P>(v: AppView<P>) -> Seq<char> {
    v.editing_name + ","@ + v.editing_date + ","@ + v.editing_price + ","@ + v.editing_color
}

/// The text that "Save now" puts in place of a missing path.
pub open spec fn no_path_hint() -> Seq<char> {
    "No file opened. Use Save interactively..."@
}

/// `v` with the pending row closed: the editing fields emptied and no row pending.
pub open spec fn pending_closed<P>(v: AppView<P>) -> AppView<P> {
    AppView {
        last_pending: false,
        editing_date: Seq::empty(),
        editing_name: Seq::empty(),
        editing_price: Seq::empty(),
        editing_color: Seq::empty(),
        ..v
    }
}

/// What a message does to the state `s` and which effect it asks for,
/// where no price is read: `None` for `CommitPendingRow`, whose outcome
/// depends on reading the price (see `commit_outcome`).
pub open spec fn step<P>(s: AppState<P>, m: Message) -> Option<(AppView<P>, Effect)> {
    let v = s@;
    match m {
        Message::SelectFile => Some((v, Effect::PickFile)),
        Message::SaveInteractively => Some((v, Effect::PickSaveFile)),
        Message::FileSaved(p) => if trim(p@).len() == 0 {
            Some((v, Effect::Nothing))
        } else {
            Some((AppView { path: p@, ..v }, Effect::WriteStorage(p)))
        },
        Message::FileSelected(p) => Some(
            (AppView { path: p@, selected_rows: Set::empty(), ..v }, Effect::LoadFile(p)),
        ),
        Message::Add => if v.last_pending {
            Some((AppView { add_pressed: true, ..v }, Effect::Nothing))
        } else {
            Some(
                (
                    AppView {
                        add_pressed: true,
                        last_pending: true,
                        editing_date: Seq::empty(),
                        editing_name: Seq::empty(),
                        editing_price: Seq::empty(),
                        editing_color: Seq::empty(),
                        ..v
                    },
                    Effect::Nothing,
                ),
            )
        },
        Message::InputChanged(t) => Some((AppView { input_form: t@, ..v }, Effect::Nothing)),
        Message::EditingDateChanged(t) => Some((AppView { editing_date: t@, ..v }, Effect::Nothing)),
        Message::EditingNameChanged(t) => Some((AppView { editing_name: t@, ..v }, Effect::Nothing)),
        Message::EditingPriceChanged(t) => Some((AppView { editing_price: t@, ..v }, Effect::Nothing)),
        Message::EditingColorChanged(t) => Some((AppView { editing_color: t@, ..v }, Effect::Nothing)),
        Message::CommitPendingRow => None,
        Message::PasteNow => Some((v, Effect::FillDateNow)),
        Message::SaveNow => if trim(v.path).len() == 0 {
            Some((AppView { path: no_path_hint(), ..v }, Effect::Nothing))
        } else {
            Some((v, Effect::WriteStorage(s.path)))
        },
        Message::DeleteSelected => if v.selected_rows.is_empty() {
            Some((v, Effect::Nothing))
        } else {
            Some(
                (
                    AppView {
                        records: filter_by(v.records, unselected(v.selected_rows, v.records.len())),
                        selected_rows: Set::empty(),
                        ..v
                    },
                    Effect::Nothing,
                ),
            )
        },
        Message::ToggleRow(i) => Some(
            (AppView { selected_rows: toggle(v.selected_rows, i), ..v }, Effect::Nothing),
        ),
        Message::Dummy(t) => Some((AppView { some_string: t@, ..v }, Effect::Nothing)),
        Message::ExecuteCommands => Some((v, Effect::RunCommandFile(s.command_path))),
        Message::SaveAs => Some((v, Effect::Unimplemented)),
        Message::SelectCommandFile => Some((v, Effect::Unimplemented)),
        Message::CommandFileSelected(_) => Some((v, Effect::Unimplemented)),
    }
}

/// `w` is a state that committing the pending row of `v` can give: the line
/// of the pending row is read as a record (one outcome of the price
/// reader); a record is added at the end and the pending row closed, and on
/// an error nothing changes.
pub open spec fn commit_outcome<P, F: Fn(&String) -> Result<P, String>>(
    v: AppView<P>,
    parse_price: F,
    w: AppView<P>,
) -> bool {
    exists|r: Result<Fuel<P>, String>|
        {
            &&& parsed_from(pending_line(v), parse_price, r)
            &&& match r {
                Ok(fuel) => w == pending_closed(AppView { records: v.records.push(fuel), ..v }),
                Err(_) => w == v,
            }
        }
}

/// `w` is a state that adding the record written in `line` to `v` can
/// give: the line is read as a record (one outcome of the price reader),
/// which is added at the end; on an error nothing changes.
pub open spec fn add_outcome<P, F: Fn(&String) -> Result<P, String>>(
    v: AppView<P>,
    line: Seq<char>,
    parse_price: F,
    w: AppView<P>,
) -> bool {
    exists|r: Result<Fuel<P>, String>|
        {
            &&& parsed_from(line, parse_price, r)
            &&& match r {
                Ok(fuel) => w == (AppView { records: v.records.push(fuel), ..v }),
                Err(_) => w == v,
            }
        }
}

impl<P> Default for AppState<P> {
    /// An empty screen: no path, no records, nothing pending or selected.
    fn default() -> (s: Self)
        ensures
            s@ == (AppView::<P> {
                path: Seq::empty(),
                records: Seq::empty(),
                add_pressed: false,
                input_form: Seq::empty(),
                last_pending: false,
                editing_date: Seq::empty(),
                editing_name: Seq::empty(),
                editing_price: Seq::empty(),
                editing_color: Seq::empty(),
                selected_rows: Set::empty(),
                some_string: Seq::empty(),
                command_path: Seq::empty(),
            }),
    {
        AppState {
            path: String::new(),
            fuel_storage: FuelStorage::new(),
            add_pressed: false,
            input_form: String::new(),
            last_pending: false,
            editing_date: String::new(),
            editing_name: String::new(),
            editing_price: String::new(),
            editing_color: String::new(),
            selected_rows: HashSet::new(),
            some_string: String::new(),
            command_path: String::new(),
        }
    }
}

impl<P> AppState<P> {
    /// Handles a message: changes the state and says which outside work is
    /// to be done.
    pub fn update<F: Fn(&String) -> Result<P, String>>(&mut self, message: Message, parse_price: &F) -> (e: Effect)
        requires
            forall|s: &String| parse_price.requires((s,)),
        ensures
            match step(*old(self), message) {
                Some((v, eff)) => final(self)@ == v && e == eff,
                None => commit_outcome(old(self)@, *parse_price, final(self)@) && e == Effect::Nothing,
            },
    {
        broadcast use vstd::std_specs::hash::group_hash_axioms;
        match message {
            Message::SelectFile => Effect::PickFile,
            Message::SaveInteractively => Effect::PickSaveFile,
            Message::FileSaved(path) => {
                let cs = chars_of(path.as_str());
                if trim_chars(cs.as_slice()).len() == 0 {
                    Effect::Nothing
                } else {
                    self.path = path.clone();
                    Effect::WriteStorage(path)
                }
            },
            Message::FileSelected(path) => {
                self.path = path.clone();
                self.selected_rows.clear();
                Effect::LoadFile(path)
            },
            Message::Add => {
                self.add_pressed = true;
                if !self.last_pending {
                    self.last_pending = true;
                    self.editing_date = String::new();
                    self.editing_name = String::new();
                    self.editing_price = String::new();
                    self.editing_color = String::new();
                }
                Effect::Nothing
            },
            Message::InputChanged(value) => {
                self.input_form = value;
                Effect::Nothing
            },
            Message::EditingDateChanged(value) => {
                self.editing_date = value;
                Effect::Nothing
            },
            Message::EditingNameChanged(value) => {
                self.editing_name = value;
                Effect::Nothing
            },
            Message::EditingPriceChanged(value) => {
                self.editing_price = value;
                Effect::Nothing
            },
            Message::EditingColorChanged(value) => {
                self.editing_color = value;
                Effect::Nothing
            },
            Message::CommitPendingRow => {
                let mut line: Vec<char> = Vec::new();
                push_chars(&mut line, string_chars(&self.editing_name).as_slice());
                push_str(&mut line, ",");
                push_chars(&mut line, string_chars(&self.editing_date).as_slice());
                push_str(&mut line, ",");
                push_chars(&mut line, string_chars(&self.editing_price).as_slice());
                push_str(&mut line, ",");
                push_chars(&mut line, string_chars(&self.editing_color).as_slice());
                let text = string_of(line.as_slice());
                assert(text@ == pending_line(old(self)@));
                let r = Fuel::from_string(text.as_str(), parse_price);
                let ghost r0 = r;
                if let Ok(fuel) = r {
                    self.fuel_storage.push(fuel);
                    self.last_pending = false;
                    self.editing_date = String::new();
                    self.editing_name = String::new();
                    self.editing_price = String::new();
                    self.editing_color = String::new();
                }
                assert(parsed_from(pending_line(old(self)@), *parse_price, r0));
                Effect::Nothing
            },
            Message::PasteNow => Effect::FillDateNow,
            Message::SaveNow => {
                let cs = chars_of(self.path.as_str());
                if trim_chars(cs.as_slice()).len() == 0 {
                    self.path = String::from_str("No file opened. Use Save interactively...");
                    Effect::Nothing
                } else {
                    Effect::WriteStorage(self.path.clone())
                }
            },
            Message::DeleteSelected => {
                if !self.selected_rows.is_empty() {
                    self.fuel_storage.remove_rows(&self.selected_rows);
                    self.selected_rows.clear();
                }
                Effect::Nothing
            },
            Message::ToggleRow(index) => {
                if self.selected_rows.contains(&index) {
                    self.selected_rows.remove(&index);
                } else {
                    self.selected_rows.insert(index);
                }
                Effect::Nothing
            },
            Message::Dummy(value) => {
                self.some_string = value;
                Effect::Nothing
            },
            Message::ExecuteCommands => Effect::RunCommandFile(self.command_path.clone()),
            Message::SaveAs => Effect::Unimplemented,
            Message::SelectCommandFile => Effect::Unimplemented,
            Message::CommandFileSelected(_) => Effect::Unimplemented,
        }
    }
    /// Puts the date `now` into the date being edited, written as records
    /// write dates (`yyyy.mm.dd hh:mm`); this is what "Now" does with the
    /// clock reading.
    pub fn fill_date(&mut self, now: &FuelDate)
        ensures
            final(self)@ == (AppView {
                editing_date: date_text_spec(*now, record_date_format()),
                ..old(self)@
            }),
    {
        let text = match format_date_time(now, "%Y.%m.%d %H:%M") {
            Some(t) => t,
            None => String::new(),
        };
        self.editing_date = text;
    }

    /// Replaces the records with those read from the text of an opened
    /// file, one per line (see `FuelParser::parse_content`), and gives the
    /// lines that did not read, with their numbers and error messages (see
    /// `FuelParser::parse_content_with_errors`).
    pub fn load_records<F: Fn(&String) -> Result<P, String>>(&mut self, contents: &str, parse_price: &F) -> (errors: Vec<(usize, String)>)
        requires
            forall|s: &String| parse_price.requires((s,)),
        ensures
            exists|outs: Seq<Result<Fuel<P>, String>>|
                {
                    &&& read_each(record_lines(contents@), *parse_price, outs)
                    &&& final(self)@ == (AppView { records: oks(outs), ..old(self)@ })
                    &&& error_views(errors@) == read_errors(record_line_numbers(lines(contents@)), outs)
                },
    {
        let parser = FuelParser::new();
        let (storage, errors) = parser.parse_content_with_errors(contents, parse_price);
        self.fuel_storage = storage;
        errors
    }

    /// Applies one command of a command file: `ADD` adds the record if its
    /// line reads; `REM` removes the records for which its condition holds
    /// (nothing happens if the condition does not read); `SAVE` asks for
    /// the records to be written to the named file.
    pub fn apply_command<F, T>(&mut self, cmd: &Command, parse_price: &F, price_test: &T) -> (e: Effect) where
        F: Fn(&String) -> Result<P, String>,
        T: Fn(&P, ConditionOperator, &String) -> bool,
        requires
            forall|s: &String| parse_price.requires((s,)),
            forall|p: &P, o: ConditionOperator, v: &String| price_test.requires((p, o, v)),
        ensures
            match *cmd {
                Command::Add(line) => e == Effect::Nothing && add_outcome(old(self)@, line@, *parse_price, final(self)@),
                Command::Remove(text) => e == Effect::Nothing && match condition_spec(text@) {
                    Err(_) => final(self)@ == old(self)@,
                    Ok(_) => exists|c: Condition|
                        {
                            &&& condition_match(Ok(c), condition_spec(text@))
                            &&& removed_where(c, *price_test, old(self)@.records, final(self)@.records)
                            &&& final(self)@ == (AppView { records: final(self)@.records, ..old(self)@ })
                        },
                },
                Command::Save(name) => e == Effect::WriteStorage(name) && final(self)@ == old(self)@,
            },
    {
        match cmd {
            Command::Add(line) => {
                let r = Fuel::from_string(line.as_str(), parse_price);
                let ghost r0 = r;
                let ghost before = self@;
                match r {
                    Ok(fuel) => {
                        self.fuel_storage.push(fuel);
                        assert(self@ =~= (AppView { records: before.records.push(fuel), ..before }));
                    },
                    Err(_) => {},
                }
                assert(parsed_from(line@, *parse_price, r0));
                assert(add_outcome(old(self)@, line@, *parse_price, self@));
                Effect::Nothing
            },
            Command::Remove(text) => {
                match Condition::parse(text.as_str()) {
                    Ok(c) => {
                        self.fuel_storage.remove_where(&c, price_test);
                        assert(self@ =~= (AppView { records: self@.records, ..old(self)@ }));
                        assert({
                            &&& condition_match(Ok(c), condition_spec(text@))
                            &&& removed_where(c, *price_test, old(self)@.records, self@.records)
                            &&& self@ == (AppView { records: self@.records, ..old(self)@ })
                        });
                    },
                    Err(_) => {},
                }
                Effect::Nothing
            },
            Command::Save(name) => Effect::WriteStorage(name.clone()),
        }
    }
}

/// Switching a row twice leaves the selection as it was.
pub proof fn lemma_toggle_twice(s: Set<usize>, i: usize)
    ensures
        toggle(toggle(s, i), i) == s,
{
    if s.contains(i) {
        assert(s.remove(i).insert(i) =~= s);
    } else {
        assert(s.insert(i).remove(i) =~= s);
    }
}

/// Committing the pending row stores what the form holds: when the four
/// edited fields are plain and the name is not empty, a commit that adds a
/// record adds one whose name is the edited name and whose colour and date
/// are what the edited colour and date texts read as; all else of the state
/// but the pending row stays.
pub proof fn lemma_commit_stores_the_form<P, F: Fn(&String) -> Result<P, String>>(
    v: AppView<P>,
    parse_price: F,
    w: AppView<P>,
)
    requires
        commit_outcome(v, parse_price, w),
        plain_field(v.editing_name),
        plain_field(v.editing_date),
        plain_field(v.editing_price),
        plain_field(v.editing_color),
        v.editing_name.len() > 0,
        w.records.len() == v.records.len() + 1,
    ensures
        w.records.drop_last() == v.records,
        w.records.last().name@ == v.editing_name,
        color_spec(v.editing_color) == Ok::<(u8, u8, u8), Seq<char>>(w.records.last().color),
        date_spec(v.editing_date) == Ok::<FuelDate, Seq<char>>(w.records.last().date),
        w == pending_closed(AppView { records: w.records, ..v }),
{
    lemma_record_line_round_trip(v.editing_name, v.editing_date, v.editing_price, v.editing_color);
    let r = choose|r: Result<Fuel<P>, String>|
        {
            &&& parsed_from(pending_line(v), parse_price, r)
            &&& match r {
                Ok(fuel) => w == pending_closed(AppView { records: v.records.push(fuel), ..v }),
                Err(_) => w == v,
            }
        };
    let t: FieldsView = (v.editing_name, v.editing_date, v.editing_price, v.editing_color);
    assert(split_record_spec(pending_line(v)) == Ok::<FieldsView, Seq<char>>(t));
    match r {
        Ok(fuel) => {
            let (ps, pr) = choose|ps: String, pr: Result<P, String>|
                ps@ == t.2 && call_ensures(parse_price, (&ps,), pr) && fuel_match(
                    r,
                    finish_spec(t, price_view(pr)),
                );
            assert(w.records == v.records.push(fuel));
            assert(w.records.drop_last() =~= v.records);
            assert(w =~= pending_closed(AppView { records: w.records, ..v }));
        },
        Err(_) => {
            assert(w.records.len() == v.records.len());
        },
    }
}

/// Opening a file makes it the file that "Save now" writes: after
/// `FileSelected(p)` the path is `p`, nothing but the path and the selection
/// changed, and a following `SaveNow` asks to write the records to `p`
/// (when `p` is not blank) and changes nothing.
pub proof fn lemma_opened_file_is_the_one_saved<P>(s: AppState<P>, p: String, s2: AppState<P>)
    requires
        step(s, Message::FileSelected(p)) matches Some((v, _)) && v == s2@,
    ensures
        s2.path@ == p@,
        s2@ == (AppView { path: s2@.path, selected_rows: s2@.selected_rows, ..s@ }),
        trim(p@).len() > 0 ==> step(s2, Message::SaveNow) == Some((s2@, Effect::WriteStorage(s2.path))),
{
}

/// `ADD` always appends a line that reads as a record: when the line splits
/// into fields whose colour and date read and whose price every outcome of
/// the price reader reads, the record is added at the end, whatever records
/// are already stored, and nothing else changes.
pub proof fn lemma_add_appends<P, F: Fn(&String) -> Result<P, String>>(
    v: AppView<P>,
    line: Seq<char>,
    parse_price: F,
    w: AppView<P>,
)
    requires
        add_outcome(v, line, parse_price, w),
        split_record_spec(line) matches Ok(t) && color_spec(t.3) is Ok && date_spec(t.1) is Ok && (forall|
            ps: String,
            pr: Result<P, String>,
        | ps@ == t.2 && call_ensures(parse_price, (&ps,), pr) ==> pr is Ok),
    ensures
        w.records.len() == v.records.len() + 1,
        w.records.drop_last() == v.records,
        w.records.last().name@ == split_record_spec(line)->Ok_0.0,
        w == (AppView { records: w.records, ..v }),
{
    let t = split_record_spec(line)->Ok_0;
    let r = choose|r: Result<Fuel<P>, String>|
        parsed_from(line, parse_price, r) && match r {
            Ok(fuel) => w == (AppView { records: v.records.push(fuel), ..v }),
            Err(_) => w == v,
        };
    let (ps, pr) = choose|ps: String, pr: Result<P, String>|
        ps@ == t.2 && call_ensures(parse_price, (&ps,), pr) && fuel_match(r, finish_spec(t, price_view(pr)));
    assert(pr is Ok);
    match r {
        Ok(fuel) => {
            assert(w.records.drop_last() =~= v.records);
            assert(w =~= (AppView { records: w.records, ..v }));
        },
        Err(_) => {
            assert(false);
        },
    }
}

} // verus!
