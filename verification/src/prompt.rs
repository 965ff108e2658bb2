//! The state behind the two prompts: a list to choose several entries from,
//! and a question with a default answer.

use vstd::prelude::*;
use vstd::string::*;

verus! {

/// A key that the list reacts to.
#[derive(Clone, Copy, Debug, PartialEq, Eq)]
pub enum Key {
    Down,
    Left,
    Up,
    Right,
    Char(char),
    Esc,
    Other,
}

/// What the list asks for after a key.
#[derive(Clone, Copy, Debug, PartialEq, Eq)]
pub enum Outcome {
    /// Show the list again and read the next key.
    Continue,
    /// The user is done: hand out the checked entries.
    Submit,
    /// The user gave up.
    Cancel,
}

/// One entry of the list.
#[derive(Debug, PartialEq, Eq)]
pub struct Choice {
    pub text: String,
    pub checked: bool,
}

/// The mathematical value of a [`Choice`].
pub struct Entry {
    pub text: Seq<char>,
    pub checked: bool,
}

impl View for Choice {
    type V = Entry;

    open spec fn view(&self) -> Entry {
        Entry { text: self.text@, checked: self.checked }
    }
}

/// The entries that a list of choices holds, in order.
pub open spec fn entries(options: Seq<Choice>) -> Seq<Entry> {
    options.map_values(|c: Choice| c@)
}

/// The entries that a list of pairs stands for, in order.
pub open spec fn entries_of(pairs: Seq<(String, bool)>) -> Seq<Entry> {
    pairs.map_values(|p: (String, bool)| Entry { text: p.0@, checked: p.1 })
}

/// The mathematical value of a [`MultipleChoiceList`].
pub struct Menu {
    pub text: Seq<char>,
    pub options: Seq<Entry>,
    /// The index of the entry that the cursor is on; 0 while there is none.
    pub cursor: int,
}

/// How many entries are shown at once.
pub open spec fn window_len() -> int {
    5
}

impl Menu {
    /// The cursor after a step forward, which wraps to the first entry.
    pub open spec fn cursor_forward(self) -> int {
        if self.options.len() == 0 {
            0
        } else if self.cursor == self.options.len() - 1 {
            0
        } else {
            self.cursor + 1
        }
    }

    /// The cursor after a step back, which wraps to the last entry.
    pub open spec fn cursor_back(self) -> int {
        if self.options.len() == 0 {
            0
        } else if self.cursor == 0 {
            self.options.len() - 1
        } else {
            self.cursor - 1
        }
    }

    /// The entries with the check mark of the one under the cursor turned.
    pub open spec fn toggled(self) -> Seq<Entry> {
        if self.options.len() == 0 {
            self.options
        } else {
            self.options.update(
                self.cursor,
                Entry {
                    text: self.options[self.cursor].text,
                    checked: !self.options[self.cursor].checked,
                },
            )
        }
    }

    /// The list after a key.
    pub open spec fn after_key(self, key: Key) -> Menu {
        match key {
            Key::Down | Key::Left => Menu { cursor: self.cursor_forward(), ..self },
            Key::Up | Key::Right => Menu { cursor: self.cursor_back(), ..self },
            Key::Char(c) => if c == ' ' {
                Menu { options: self.toggled(), ..self }
            } else {
                self
            },
            _ => self,
        }
    }

    /// The index of the first entry that is shown: all are shown while they
    /// are fewer than five, else five of them, with the cursor in the middle
    /// where the ends of the list allow it.
    pub open spec fn window_start(self) -> int {
        if self.options.len() < window_len() || self.cursor < 2 {
            0
        } else if self.cursor > self.options.len() - 3 {
            self.options.len() - window_len()
        } else {
            self.cursor - 2
        }
    }

    /// The index behind the last entry that is shown.
    pub open spec fn window_end(self) -> int {
        if self.options.len() < window_len() {
            self.options.len() as int
        } else {
            self.window_start() + window_len()
        }
    }
}

/// What a key asks for: the line feed submits, escape cancels, every other
/// key goes on.
pub open spec fn outcome_of(key: Key) -> Outcome {
    match key {
        Key::Char(c) => if c == '\n' {
            Outcome::Submit
        } else {
            Outcome::Continue
        },
        Key::Esc => Outcome::Cancel,
        _ => Outcome::Continue,
    }
}

/// Holds of a checked entry.
pub open spec fn is_checked() -> spec_fn(Entry) -> bool {
    |e: Entry| e.checked
}

/// The texts of the checked entries, in order.
pub open spec fn checked_texts(options: Seq<Entry>) -> Seq<Seq<char>> {
    options.filter(is_checked()).map_values(|e: Entry| e.text)
}

/// The texts that a list of strings holds, in order.
pub open spec fn texts(list: Seq<String>) -> Seq<Seq<char>> {
    list.map_values(|s: String| s@)
}

/// A list to choose several entries from, with a cursor on one of them.
pub struct MultipleChoiceList {
    text: String,
    options: Vec<Choice>,
    cursor: usize,
}

impl View for MultipleChoiceList {
    type V = Menu;

    closed spec fn view(&self) -> Menu {
        Menu {
            text: self.text@,
            options: entries(self.options@),
            cursor: if self.cursor < self.options@.len() {
                self.cursor as int
            } else {
                0
            },
        }
    }
}

impl MultipleChoiceList {
    /// The index of the entry under the cursor; 0 while there is none.
    fn cursor(&self) -> (r: usize)
        ensures
            r == self@.cursor,
            self@.options.len() > 0 ==> r < self@.options.len(),
    {
        if self.cursor < self.options.len() {
            self.cursor
        } else {
            0
        }
    }

    /// A list with the given heading and entries, the cursor on the first.
    pub fn new(text: &str, options: Vec<(String, bool)>) -> (r: Self)
        ensures
            r@.text == text@,
            r@.options == entries_of(options@),
            r@.cursor == 0,
    {
        let mut list: Vec<Choice> = Vec::new();
        let mut i: usize = 0;
        while i < options.len()
            invariant
                i <= options.len(),
                entries(list@) == entries_of(options@.take(i as int)),
            decreases options.len() - i,
        {
            let ghost before = entries(list@);
            list.push(Choice { text: options[i].0.clone(), checked: options[i].1 });
            assert(entries(list@) =~= before.push(
                Entry { text: options@[i as int].0@, checked: options@[i as int].1 },
            ));
            assert(entries_of(options@.take(i + 1)) =~= entries_of(options@.take(i as int)).push(
                Entry { text: options@[i as int].0@, checked: options@[i as int].1 },
            ));
            i += 1;
        }
        assert(options@.take(options@.len() as int) =~= options@);
        MultipleChoiceList { text: String::from_str(text), options: list, cursor: 0 }
    }

    /// Puts one more entry at the end; the cursor stays where it is, which is
    /// on the new entry when it is the first.
    pub fn add(&mut self, text: String, checked: bool)
        ensures
            final(self)@.text == old(self)@.text,
            final(self)@.options == old(self)@.options.push(Entry { text: text@, checked }),
            final(self)@.cursor == old(self)@.cursor,
    {
        self.cursor = self.cursor();
        let ghost before = entries(self.options@);
        self.options.push(Choice { text, checked });
        assert(entries(self.options@) =~= before.push(Entry { text: text@, checked }));
    }

    /// How many entries there are.
    pub fn len(&self) -> (r: usize)
        ensures
            r == self@.options.len(),
            self@.options.len() == 0 ==> self@.cursor == 0,
            self@.options.len() > 0 ==> 0 <= self@.cursor < self@.options.len(),
    {
        self.options.len()
    }

    /// The index of the entry under the cursor, if there is any entry.
    pub fn selected(&self) -> (r: Option<usize>)
        ensures
            self@.options.len() == 0 ==> r is None,
            self@.options.len() > 0 ==> r == Some(self@.cursor as usize) && self@.cursor
                < self@.options.len(),
    {
        if self.options.len() == 0 {
            None
        } else {
            Some(self.cursor())
        }
    }

    /// The heading.
    pub fn text(&self) -> (r: &String)
        ensures
            r@ == self@.text,
    {
        &self.text
    }

    /// The entry at index `i`, if there is one.
    pub fn option(&self, i: usize) -> (r: Option<&Choice>)
        ensures
            i < self@.options.len() ==> (r matches Some(c) && c@ == self@.options[i as int]),
            i >= self@.options.len() ==> r is None,
    {
        if i < self.options.len() {
            Some(&self.options[i])
        } else {
            None
        }
    }

    /// Takes a key in: an arrow moves the cursor, the space bar turns the
    /// check mark of the entry under it, every other key changes nothing.
    /// Says what the key asks for.
    pub fn press(&mut self, key: Key) -> (r: Outcome)
        ensures
            final(self)@ == old(self)@.after_key(key),
            r == outcome_of(key),
    {
        let n = self.options.len();
        self.cursor = self.cursor();
        match key {
            Key::Down | Key::Left => {
                if n > 0 {
                    if self.cursor == n - 1 {
                        self.cursor = 0;
                    } else {
                        self.cursor = self.cursor + 1;
                    }
                }
                Outcome::Continue
            },
            Key::Up | Key::Right => {
                if n > 0 {
                    if self.cursor == 0 {
                        self.cursor = n - 1;
                    } else {
                        self.cursor = self.cursor - 1;
                    }
                }
                Outcome::Continue
            },
            Key::Char(c) => {
                if c == ' ' {
                    if n > 0 {
                        let ghost before = entries(self.options@);
                        let at = self.cursor;
                        let turned = Choice {
                            text: self.options[at].text.clone(),
                            checked: !self.options[at].checked,
                        };
                        self.options.set(at, turned);
                        assert(entries(self.options@) =~= before.update(
                            at as int,
                            Entry { text: before[at as int].text, checked: !before[at as int].checked },
                        ));
                    }
                    Outcome::Continue
                } else if c == '\n' {
                    Outcome::Submit
                } else {
                    Outcome::Continue
                }
            },
            Key::Esc => Outcome::Cancel,
            Key::Other => Outcome::Continue,
        }
    }

    /// The entries to show, as the index of the first and the index behind
    /// the last.
    pub fn window(&self) -> (r: (usize, usize))
        ensures
            r.0 == self@.window_start(),
            r.1 == self@.window_end(),
            r.0 <= r.1 <= self@.options.len(),
            self@.options.len() > 0 ==> r.0 <= self@.cursor < r.1,
    {
        let n = self.options.len();
        let at = self.cursor();
        if n < 5 {
            (0, n)
        } else if at < 2 {
            (0, 5)
        } else if at > n - 3 {
            (n - 5, n)
        } else {
            (at - 2, at + 3)
        }
    }

    /// How many lines the list takes on the screen.
    pub fn height(&self) -> (r: usize)
        ensures
            r == self@.window_end() - self@.window_start(),
            r <= 5,
    {
        let w = self.window();
        w.1 - w.0
    }

    /// The texts of the checked entries, in order.
    pub fn answers(&self) -> (r: Vec<String>)
        ensures
            texts(r@) == checked_texts(self@.options),
    {
        let mut out: Vec<String> = Vec::new();
        let ghost all = entries(self.options@);
        let mut i: usize = 0;
        proof {
            reveal(Seq::filter);
            assert(all.take(0) =~= Seq::<Entry>::empty());
            assert(checked_texts(all.take(0)) =~= Seq::<Seq<char>>::empty());
            assert(texts(out@) =~= Seq::<Seq<char>>::empty());
        }
        while i < self.options.len()
            invariant
                i <= self.options.len(),
                all == entries(self.options@),
                texts(out@) == checked_texts(all.take(i as int)),
            decreases self.options.len() - i,
        {
            let ghost before = texts(out@);
            proof {
                assert(all.take(i + 1) =~= all.take(i as int).push(all[i as int]));
                all.take(i as int).lemma_filter_push(all[i as int], is_checked());
                if all[i as int].checked {
                    assert(checked_texts(all.take(i + 1)) =~= checked_texts(all.take(i as int)).push(
                        all[i as int].text,
                    ));
                }
            }
            if self.options[i].checked {
                out.push(self.options[i].text.clone());
                assert(texts(out@) =~= before.push(all[i as int].text));
            }
            i += 1;
        }
        assert(all.take(all.len() as int) =~= all);
        out
    }
}

/// `s` without the whitespace at its end, as std's `str::trim_end` gives it.
pub uninterp spec fn trimmed_end(s: Seq<char>) -> Seq<char>;

/// std's `str::trim_end`: the text without the whitespace at its end, of
/// which nothing more is claimed than that it is what std gives for this text.
#[verifier::external_body]
fn trim_end(s: &str) -> (r: &str)
    ensures
        r@ == trimmed_end(s@),
{
    s.trim_end()
}

/// A question with an answer for the user who gives none.
#[derive(Debug)]
pub struct Question {
    question: String,
    default: String,
}

/// The mathematical value of a [`Question`].
pub struct Inquiry {
    pub question: Seq<char>,
    pub default: Seq<char>,
}

impl View for Question {
    type V = Inquiry;

    closed spec fn view(&self) -> Inquiry {
        Inquiry { question: self.question@, default: self.default@ }
    }
}

impl Inquiry {
    /// What counts as the answer when the user typed `answer`: the default
    /// in place of an empty one.
    pub open spec fn settled(self, answer: Seq<char>) -> Seq<char> {
        if answer.len() == 0 {
            self.default
        } else {
            answer
        }
    }
}

impl Question {
    /// A question with its default answer.
    pub fn new(question: &str, default: &str) -> (r: Self)
        ensures
            r@.question == question@,
            r@.default == default@,
    {
        Question { question: String::from_str(question), default: String::from_str(default) }
    }

    /// The text of the question.
    pub fn question(&self) -> (r: &String)
        ensures
            r@ == self@.question,
    {
        &self.question
    }

    /// What counts as the answer when the user typed `answer`, which has no
    /// whitespace at its end: the default in place of an empty one.
    pub fn settle(&self, answer: &str) -> (r: String)
        ensures
            r@ == self@.settled(answer@),
    {
        if answer.unicode_len() == 0 {
            self.default.clone()
        } else {
            String::from_str(answer)
        }
    }

    /// What counts as the answer when the user typed the line `line`: the
    /// line without the whitespace at its end, or the default where nothing
    /// is left of it.
    pub fn answer(&self, line: &str) -> (r: String)
        ensures
            r@ == self@.settled(trimmed_end(line@)),
    {
        self.settle(trim_end(line))
    }
}

} // verus!
