//! The interactive session as a state machine.
//!
//! A session owns the book. It is driven one line of input at a time:
//! `Session::step` takes the line that was read, changes the book and the
//! state, and gives back what is to be shown. Reading the input, showing the
//! replies and writing the file are left to the caller.

use crate::book::{
    distinct_names, last_with_date, lemma_upsert, listing, lookup, upsert, DateBook,
};
use crate::date::{parse_date, read_date, Date, DateError};
use crate::file::render_text;
use crate::text::{chars_of, is_text, trim_end, trim_end_bound};
use vstd::prelude::*;
use vstd::slice::slice_subrange;

verus! {

/// What the user can ask for at the main menu.
#[derive(Clone, Copy, Debug, PartialEq, Eq, Structural)]
pub enum Action {
    AddRecord,
    LookupByName,
    LookupByDate,
    DumpAll,
    Quit,
}

/// What an action that has begun waits for.
#[derive(Debug, PartialEq, Eq)]
pub enum Pending {
    /// Adding a record: the name.
    AddName,
    /// Adding a record for the given name: the date.
    AddDate(String),
    /// Looking up a date: the name.
    LookupName,
    /// Looking up a name: the date.
    LookupDate,
}

/// The state of a session.
#[derive(Debug, PartialEq, Eq)]
pub enum State {
    /// Waiting for a choice from the main menu.
    MainMenu,
    /// In the middle of an action.
    Executing(Pending),
    /// An action is done; waiting for the choice to repeat it, to go back to
    /// the main menu, or to quit.
    PostActionPrompt(Action),
    /// The session is over.
    Terminated,
}

/// What a session asks its caller to show or to do.
#[derive(Debug, PartialEq, Eq)]
pub enum Reply {
    /// Show the main menu.
    Menu,
    /// Show the choices that follow an action.
    NextPrompt,
    /// Say that the choice was not understood.
    UnknownChoice,
    /// Ask for the name of the record to add.
    AskName,
    /// Ask for the date of the record to add for the given name.
    AskDate(String),
    /// Say that the record was added.
    Added,
    /// Ask for the name to look up.
    AskLookupName,
    /// Show the date of the given name.
    Birthday(String, Date),
    /// Say that the name is not in the book.
    NameNotFound,
    /// Ask for the date to look up.
    AskLookupDate,
    /// Show the name that has the date that was asked for.
    BirthdayOf(String),
    /// Say that no name has the date that was asked for.
    DateNotFound,
    /// Show the whole book: one line for each record.
    Listing(Vec<String>),
    /// Write the given text form of the book to the file.
    Save(String),
}

/// `Pending` with its name as a sequence of characters.
pub enum PendingView {
    AddName,
    AddDate(Seq<char>),
    LookupName,
    LookupDate,
}

/// `State` with its name as a sequence of characters.
pub enum StateView {
    MainMenu,
    Executing(PendingView),
    PostActionPrompt(Action),
    Terminated,
}

/// `Reply` with its texts as sequences of characters.
pub enum ReplyView {
    Menu,
    NextPrompt,
    UnknownChoice,
    AskName,
    AskDate(Seq<char>),
    Added,
    AskLookupName,
    Birthday(Seq<char>, Date),
    NameNotFound,
    AskLookupDate,
    BirthdayOf(Seq<char>),
    DateNotFound,
    Listing(Seq<Seq<char>>),
    Save(Seq<char>),
}

/// A session as a value: the records of its book and its state.
pub struct Model {
    pub records: Seq<(Seq<char>, Date)>,
    pub state: StateView,
}

impl View for Pending {
    type V = PendingView;

    open spec fn view(&self) -> PendingView {
        match self {
            Pending::AddName => PendingView::AddName,
            Pending::AddDate(name) => PendingView::AddDate(name@),
            Pending::LookupName => PendingView::LookupName,
            Pending::LookupDate => PendingView::LookupDate,
        }
    }
}

impl View for State {
    type V = StateView;

    open spec fn view(&self) -> StateView {
        match self {
            State::MainMenu => StateView::MainMenu,
            State::Executing(pending) => StateView::Executing(pending@),
            State::PostActionPrompt(action) => StateView::PostActionPrompt(*action),
            State::Terminated => StateView::Terminated,
        }
    }
}

impl View for Reply {
    type V = ReplyView;

    open spec fn view(&self) -> ReplyView {
        match self {
            Reply::Menu => ReplyView::Menu,
            Reply::NextPrompt => ReplyView::NextPrompt,
            Reply::UnknownChoice => ReplyView::UnknownChoice,
            Reply::AskName => ReplyView::AskName,
            Reply::AskDate(name) => ReplyView::AskDate(name@),
            Reply::Added => ReplyView::Added,
            Reply::AskLookupName => ReplyView::AskLookupName,
            Reply::Birthday(name, date) => ReplyView::Birthday(name@, *date),
            Reply::NameNotFound => ReplyView::NameNotFound,
            Reply::AskLookupDate => ReplyView::AskLookupDate,
            Reply::BirthdayOf(name) => ReplyView::BirthdayOf(name@),
            Reply::DateNotFound => ReplyView::DateNotFound,
            Reply::Listing(lines) => ReplyView::Listing(texts(lines@)),
            Reply::Save(text) => ReplyView::Save(text@),
        }
    }
}

/// The strings of `lines` as sequences of characters.
pub open spec fn texts(lines: Seq<String>) -> Seq<Seq<char>> {
    Seq::new(lines.len(), |i: int| lines[i]@)
}

/// The views of `replies`.
pub open spec fn views(replies: Seq<Reply>) -> Seq<ReplyView> {
    Seq::new(replies.len(), |i: int| replies[i]@)
}

/// The action that `input` chooses at the main menu.
pub open spec fn menu_choice(input: Seq<char>) -> Option<Action> {
    if input == "1"@ {
        Some(Action::AddRecord)
    } else if input == "2"@ {
        Some(Action::LookupByName)
    } else if input == "3"@ {
        Some(Action::LookupByDate)
    } else if input == "4"@ {
        Some(Action::DumpAll)
    } else if input == "5"@ {
        Some(Action::Quit)
    } else {
        None
    }
}

/// The state and the replies with which `action` begins on a book with the
/// given records. Listing the book is over at once; quitting ends the
/// session and asks for the book to be saved.
pub open spec fn begin(records: Seq<(Seq<char>, Date)>, action: Action) -> (
    StateView,
    Seq<ReplyView>,
) {
    match action {
        Action::AddRecord => (StateView::Executing(PendingView::AddName), seq![ReplyView::AskName]),
        Action::LookupByName => (
            StateView::Executing(PendingView::LookupName),
            seq![ReplyView::AskLookupName],
        ),
        Action::LookupByDate => (
            StateView::Executing(PendingView::LookupDate),
            seq![ReplyView::AskLookupDate],
        ),
        Action::DumpAll => (
            StateView::PostActionPrompt(Action::DumpAll),
            seq![ReplyView::Listing(listing(records)), ReplyView::NextPrompt],
        ),
        Action::Quit => (StateView::Terminated, seq![ReplyView::Save(render_text(records))]),
    }
}

/// At the main menu: a choice begins its action; any other input leaves the
/// session at the main menu, which is shown again after a notice.
pub open spec fn at_main_menu(records: Seq<(Seq<char>, Date)>, input: Seq<char>) -> (
    StateView,
    Seq<ReplyView>,
) {
    match menu_choice(input) {
        Some(action) => begin(records, action),
        None => (StateView::MainMenu, seq![ReplyView::UnknownChoice, ReplyView::Menu]),
    }
}

/// Where a name to look up was asked for: `print` lists the book and leads
/// to the main menu; a name in the book is answered with its date; any other
/// name leads to the main menu after a notice.
pub open spec fn name_asked(records: Seq<(Seq<char>, Date)>, input: Seq<char>) -> (
    StateView,
    Seq<ReplyView>,
) {
    if input == "print"@ {
        (StateView::MainMenu, seq![ReplyView::Listing(listing(records)), ReplyView::Menu])
    } else {
        match lookup(records, input) {
            Some(date) => (
                StateView::PostActionPrompt(Action::LookupByName),
                seq![ReplyView::Birthday(input, date), ReplyView::NextPrompt],
            ),
            None => (StateView::MainMenu, seq![ReplyView::NameNotFound, ReplyView::Menu]),
        }
    }
}

/// Where a date to look up was asked for and `date` was given: the answer is
/// the last name with that date, or the notice that there is none.
pub open spec fn date_asked(records: Seq<(Seq<char>, Date)>, date: Date) -> (
    StateView,
    Seq<ReplyView>,
) {
    (
        StateView::PostActionPrompt(Action::LookupByDate),
        seq![
            match last_with_date(records, date) {
                Some(name) => ReplyView::BirthdayOf(name),
                None => ReplyView::DateNotFound,
            },
            ReplyView::NextPrompt,
        ],
    )
}

/// After the action `last`: `1` begins it again, `2` leads to the main menu,
/// `3` quits; any other input leaves the session where it is, and the
/// choices are shown again after a notice.
pub open spec fn at_next_prompt(
    records: Seq<(Seq<char>, Date)>,
    last: Action,
    input: Seq<char>,
) -> (StateView, Seq<ReplyView>) {
    if input == "1"@ {
        begin(records, last)
    } else if input == "2"@ {
        (StateView::MainMenu, seq![ReplyView::Menu])
    } else if input == "3"@ {
        begin(records, Action::Quit)
    } else {
        (
            StateView::PostActionPrompt(last),
            seq![ReplyView::UnknownChoice, ReplyView::NextPrompt],
        )
    }
}

/// What the input `input` does to a session: the session after it and the
/// replies, or the error that ends the program where a date was asked for
/// and the input is none.
pub open spec fn react(m: Model, input: Seq<char>) -> Result<(Model, Seq<ReplyView>), DateError> {
    match m.state {
        StateView::MainMenu => Ok(
            (
                Model { records: m.records, state: at_main_menu(m.records, input).0 },
                at_main_menu(m.records, input).1,
            ),
        ),
        StateView::Executing(PendingView::AddName) => Ok(
            (
                Model {
                    records: m.records,
                    state: StateView::Executing(PendingView::AddDate(input)),
                },
                seq![ReplyView::AskDate(input)],
            ),
        ),
        StateView::Executing(PendingView::AddDate(name)) => match parse_date(input) {
            Ok(date) => Ok(
                (
                    Model {
                        records: upsert(m.records, name, date),
                        state: StateView::PostActionPrompt(Action::AddRecord),
                    },
                    seq![ReplyView::Added, ReplyView::NextPrompt],
                ),
            ),
            Err(e) => Err(e),
        },
        StateView::Executing(PendingView::LookupName) => Ok(
            (
                Model { records: m.records, state: name_asked(m.records, input).0 },
                name_asked(m.records, input).1,
            ),
        ),
        StateView::Executing(PendingView::LookupDate) => match parse_date(input) {
            Ok(date) => Ok(
                (
                    Model { records: m.records, state: date_asked(m.records, date).0 },
                    date_asked(m.records, date).1,
                ),
            ),
            Err(e) => Err(e),
        },
        StateView::PostActionPrompt(last) => Ok(
            (
                Model { records: m.records, state: at_next_prompt(m.records, last, input).0 },
                at_next_prompt(m.records, last, input).1,
            ),
        ),
        StateView::Terminated => Ok((m, Seq::empty())),
    }
}

/// What one line of input does to a session. The input is the line without
/// its trailing white space.
pub open spec fn transition(m: Model, line: Seq<char>) -> Result<(Model, Seq<ReplyView>), DateError> {
    react(m, trim_end(line))
}

/// The step that ends a session is one that begins `Action::Quit`: it asks
/// for the book to be saved, once, as it then stands. No other step asks for
/// that, and a session that is over stays as it is and replies nothing.
pub proof fn lemma_saved_when_quitting(m: Model, line: Seq<char>)
    requires
        transition(m, line) is Ok,
    ensures
        ({
            let next = transition(m, line)->Ok_0.0;
            let replies = transition(m, line)->Ok_0.1;
            let ends = !(m.state is Terminated) && next.state is Terminated;
            &&& ends ==> (next.state, replies) == begin(m.records, Action::Quit)
            &&& ends ==> replies == seq![ReplyView::Save(render_text(m.records))]
            &&& ends ==> next.records == m.records
            &&& !ends ==> forall|i: int| 0 <= i < replies.len() ==> !(replies[i] is Save)
            &&& m.state is Terminated ==> next == m && replies.len() == 0
        }),
{
}

/// A step changes the book only where the date of a record to add was asked
/// for and is given: the name then has that date. The names of the book stay
/// distinct.
pub proof fn lemma_book_changes_by_adding_only(m: Model, line: Seq<char>)
    requires
        transition(m, line) is Ok,
    ensures
        ({
            let next = transition(m, line)->Ok_0.0;
            match m.state {
                StateView::Executing(PendingView::AddDate(name)) => parse_date(trim_end(line)) is Ok
                    && next.records == upsert(
                    m.records,
                    name,
                    parse_date(trim_end(line))->Ok_0,
                ),
                _ => next.records == m.records,
            }
        }),
        distinct_names(m.records) ==> distinct_names(transition(m, line)->Ok_0.0.records),
{
    match m.state {
        StateView::Executing(PendingView::AddDate(name)) => {
            if distinct_names(m.records) {
                lemma_upsert(m.records, name, parse_date(trim_end(line))->Ok_0);
            }
        },
        _ => {},
    }
}

/// Asking for `print` where a name to look up was asked for lists the book
/// as the choice to list it at the main menu does, and leads to the main
/// menu.
pub proof fn lemma_print_lists_the_book(records: Seq<(Seq<char>, Date)>)
    ensures
        transition(Model { records, state: StateView::Executing(PendingView::LookupName) }, "print"@)
            == Ok::<(Model, Seq<ReplyView>), DateError>(
            (
                Model { records, state: StateView::MainMenu },
                seq![ReplyView::Listing(listing(records)), ReplyView::Menu],
            ),
        ),
        transition(Model { records, state: StateView::MainMenu }, "4"@) == Ok::<
            (Model, Seq<ReplyView>),
            DateError,
        >(
            (
                Model { records, state: StateView::PostActionPrompt(Action::DumpAll) },
                seq![ReplyView::Listing(listing(records)), ReplyView::NextPrompt],
            ),
        ),
{
    reveal_strlit("print");
    reveal_strlit("1");
    reveal_strlit("2");
    reveal_strlit("3");
    reveal_strlit("4");
    assert(trim_end("print"@) == "print"@);
    assert(trim_end("4"@) == "4"@);
    assert("4"@[0] != "1"@[0] && "4"@[0] != "2"@[0] && "4"@[0] != "3"@[0]);
}

/// Reads a choice from the main menu.
pub fn read_menu_choice(input: &[char]) -> (r: Option<Action>)
    ensures
        r == menu_choice(input@),
{
    if is_text(input, "1") {
        Some(Action::AddRecord)
    } else if is_text(input, "2") {
        Some(Action::LookupByName)
    } else if is_text(input, "3") {
        Some(Action::LookupByDate)
    } else if is_text(input, "4") {
        Some(Action::DumpAll)
    } else if is_text(input, "5") {
        Some(Action::Quit)
    } else {
        None
    }
}

/// The two replies `first` and `second`.
fn two(first: Reply, second: Reply) -> (replies: Vec<Reply>)
    ensures
        views(replies@) == seq![first@, second@],
{
    let mut replies: Vec<Reply> = Vec::new();
    replies.push(first);
    replies.push(second);
    assert(views(replies@) =~= seq![first@, second@]);
    replies
}

/// The one reply `only`.
fn one(only: Reply) -> (replies: Vec<Reply>)
    ensures
        views(replies@) == seq![only@],
{
    let mut replies: Vec<Reply> = Vec::new();
    replies.push(only);
    assert(views(replies@) =~= seq![only@]);
    replies
}

/// A session: a book and the state of the dialogue about it.
pub struct Session {
    book: DateBook,
    state: State,
}

impl View for Session {
    type V = Model;

    closed spec fn view(&self) -> Model {
        Model { records: self.book.records(), state: self.state@ }
    }
}

impl Session {
    /// Whether the session is well formed: its book holds no name twice.
    /// Every session that this module hands out is.
    pub open spec fn wf(&self) -> bool {
        distinct_names(self@.records)
    }

    /// Begins a session on `book`, at the main menu, which is to be shown.
    pub fn start(book: DateBook) -> (r: (Session, Vec<Reply>))
        requires
            book.wf(),
        ensures
            r.0.wf(),
            r.0@ == (Model { records: book.records(), state: StateView::MainMenu }),
            views(r.1@) == seq![ReplyView::Menu],
    {
        (Session { book, state: State::MainMenu }, one(Reply::Menu))
    }

    /// The book of the session.
    pub fn book(&self) -> (book: &DateBook)
        ensures
            book.records() == self@.records,
            self.wf() ==> book.wf(),
    {
        &self.book
    }

    /// The state of the session.
    pub fn state(&self) -> (state: &State)
        ensures
            state@ == self@.state,
    {
        &self.state
    }

    /// Whether the session is over.
    pub fn is_terminated(&self) -> (b: bool)
        ensures
            b == (self@.state is Terminated),
    {
        match self.state {
            State::Terminated => true,
            _ => false,
        }
    }

    /// Begins `action`.
    fn begin(&mut self, action: Action) -> (replies: Vec<Reply>)
        requires
            old(self).wf(),
        ensures
            final(self).wf(),
            final(self)@.records == old(self)@.records,
            (final(self)@.state, views(replies@)) == begin(old(self)@.records, action),
    {
        match action {
            Action::AddRecord => {
                self.state = State::Executing(Pending::AddName);
                one(Reply::AskName)
            },
            Action::LookupByName => {
                self.state = State::Executing(Pending::LookupName);
                one(Reply::AskLookupName)
            },
            Action::LookupByDate => {
                self.state = State::Executing(Pending::LookupDate);
                one(Reply::AskLookupDate)
            },
            Action::DumpAll => {
                let lines = self.book.lines();
                assert(texts(lines@) =~= listing(self.book.records()));
                self.state = State::PostActionPrompt(Action::DumpAll);
                two(Reply::Listing(lines), Reply::NextPrompt)
            },
            Action::Quit => {
                let text = self.book.to_text();
                self.state = State::Terminated;
                one(Reply::Save(text))
            },
        }
    }

    /// Takes a choice at the main menu.
    fn pick(&mut self, input: &[char]) -> (replies: Vec<Reply>)
        requires
            old(self).wf(),
            old(self)@.state is MainMenu,
        ensures
            final(self).wf(),
            final(self)@.records == old(self)@.records,
            (final(self)@.state, views(replies@)) == at_main_menu(old(self)@.records, input@),
    {
        match read_menu_choice(input) {
            Some(action) => self.begin(action),
            None => two(Reply::UnknownChoice, Reply::Menu),
        }
    }

    /// Takes the name to look up.
    fn look_up_name(&mut self, input: &[char], name: String) -> (replies: Vec<Reply>)
        requires
            old(self).wf(),
            name@ == input@,
        ensures
            final(self).wf(),
            final(self)@.records == old(self)@.records,
            (final(self)@.state, views(replies@)) == name_asked(old(self)@.records, input@),
    {
        if is_text(input, "print") {
            let lines = self.book.lines();
            assert(texts(lines@) =~= listing(self.book.records()));
            self.state = State::MainMenu;
            two(Reply::Listing(lines), Reply::Menu)
        } else {
            match self.book.get(&name) {
                Some(date) => {
                    self.state = State::PostActionPrompt(Action::LookupByName);
                    two(Reply::Birthday(name, date), Reply::NextPrompt)
                },
                None => {
                    self.state = State::MainMenu;
                    two(Reply::NameNotFound, Reply::Menu)
                },
            }
        }
    }

    /// Looks up the date that was asked for.
    fn look_up_date(&mut self, date: Date) -> (replies: Vec<Reply>)
        requires
            old(self).wf(),
        ensures
            final(self).wf(),
            final(self)@.records == old(self)@.records,
            (final(self)@.state, views(replies@)) == date_asked(old(self)@.records, date),
    {
        let answer = match self.book.find_name_by_date(&date) {
            Some(name) => Reply::BirthdayOf(name),
            None => Reply::DateNotFound,
        };
        self.state = State::PostActionPrompt(Action::LookupByDate);
        two(answer, Reply::NextPrompt)
    }

    /// Takes a choice after the action `last`.
    fn pick_next(&mut self, last: Action, input: &[char]) -> (replies: Vec<Reply>)
        requires
            old(self).wf(),
            old(self)@.state == StateView::PostActionPrompt(last),
        ensures
            final(self).wf(),
            final(self)@.records == old(self)@.records,
            (final(self)@.state, views(replies@)) == at_next_prompt(
                old(self)@.records,
                last,
                input@,
            ),
    {
        if is_text(input, "1") {
            self.begin(last)
        } else if is_text(input, "2") {
            self.state = State::MainMenu;
            one(Reply::Menu)
        } else if is_text(input, "3") {
            self.begin(Action::Quit)
        } else {
            two(Reply::UnknownChoice, Reply::NextPrompt)
        }
    }

    /// Takes one line of input: changes the book and the state as
    /// `transition` says and gives back the replies. Where a date was asked
    /// for and the input is none, the session stays as it was and the error
    /// is returned; the program is then to end without saving.
    pub fn step(&mut self, line: &str) -> (r: Result<Vec<Reply>, DateError>)
        requires
            old(self).wf(),
        ensures
            final(self).wf(),
            match transition(old(self)@, line@) {
                Ok(next) => r is Ok && final(self)@ == next.0 && views(r->Ok_0@) == next.1,
                Err(e) => r is Err && r->Err_0 == e && final(self)@ == old(self)@,
            },
    {
        let chars = chars_of(line);
        let end: usize = trim_end_bound(chars.as_slice());
        let input = slice_subrange(chars.as_slice(), 0, end);
        assert(input@ =~= trim_end(line@));
        match &self.state {
            State::MainMenu => Ok(self.pick(input)),
            State::Executing(Pending::AddName) => {
                let name = line.substring_char(0, end).to_owned();
                assert(name@ =~= input@);
                let replies = one(Reply::AskDate(name.clone()));
                self.state = State::Executing(Pending::AddDate(name));
                Ok(replies)
            },
            State::Executing(Pending::AddDate(name)) => {
                match read_date(input) {
                    Err(e) => Err(e),
                    Ok(date) => {
                        let name = name.clone();
                        self.book.insert(name, date);
                        self.state = State::PostActionPrompt(Action::AddRecord);
                        Ok(two(Reply::Added, Reply::NextPrompt))
                    },
                }
            },
            State::Executing(Pending::LookupName) => {
                let name = line.substring_char(0, end).to_owned();
                assert(name@ =~= input@);
                Ok(self.look_up_name(input, name))
            },
            State::Executing(Pending::LookupDate) => {
                match read_date(input) {
                    Err(e) => Err(e),
                    Ok(date) => Ok(self.look_up_date(date)),
                }
            },
            State::PostActionPrompt(last) => {
                let last: Action = *last;
                Ok(self.pick_next(last, input))
            },
            State::Terminated => {
                let replies: Vec<Reply> = Vec::new();
                assert(views(replies@) =~= Seq::<ReplyView>::empty());
                Ok(replies)
            },
        }
    }
}

} // verus!
