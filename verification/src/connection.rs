//! The reader of one connection: which command a line of input stands for.

use crate::action::Param;
use vstd::prelude::*;

verus! {

/// A command as it goes to the authoritative loop: its keyword, its
/// parameters, and the action that the keyword resolved to.
pub struct Command<A> {
    pub keyword: String,
    pub params: Vec<Param>,
    pub action: A,
}

/// The line without the white space at its ends: what std's `str::trim`
/// gives for it.
pub uninterp spec fn trimmed(line: Seq<char>) -> Seq<char>;

/// The trusted call of std's `str::trim`, which gives the line without
/// leading and trailing white space.
#[verifier::external_body]
fn trim(line: &str) -> (inner: &str)
    ensures
        inner@ == trimmed(line@),
{
    line.trim()
}

/// Whether a line holds nothing but white space.
pub open spec fn blank(line: Seq<char>) -> bool {
    trimmed(line).len() == 0
}

/// Whether a byte separates the words of a line: a blank, a tab, a line
/// feed or a carriage return.
pub open spec fn is_space(b: u8) -> bool {
    b == 32 || b == 9 || b == 10 || b == 13
}

/// The words of a line: its longest runs of bytes that are no separators,
/// in order. The first is the keyword, the others are the parameters.
pub open spec fn words(line: Seq<u8>) -> Seq<Seq<u8>>
    decreases line.len(),
{
    if line.len() == 0 {
        Seq::empty()
    } else if is_space(line.last()) {
        words(line.drop_last())
    } else if line.len() >= 2 && !is_space(line[line.len() - 2]) {
        let before = words(line.drop_last());
        before.drop_last().push(before.last().push(line.last()))
    } else {
        words(line.drop_last()).push(seq![line.last()])
    }
}

/// What a list of byte strings stands for.
pub open spec fn words_model(words: Seq<Vec<u8>>) -> Seq<Seq<u8>> {
    Seq::new(words.len(), |i: int| words[i]@)
}

/// Splits a line into its words.
pub fn split_words(line: &Vec<u8>) -> (found: Vec<Vec<u8>>)
    ensures
        words_model(found@) == words(line@),
{
    let mut found: Vec<Vec<u8>> = Vec::new();
    let mut word: Vec<u8> = Vec::new();
    let mut i: usize = 0;
    assert(line@.subrange(0, 0) =~= Seq::<u8>::empty());
    assert(words_model(found@) =~= words(line@.subrange(0, 0)));
    while i < line.len()
        invariant
            i <= line@.len(),
            word@.len() > 0 <==> (i > 0 && !is_space(line@[i - 1])),
            words(line@.subrange(0, i as int)) == if word@.len() > 0 {
                words_model(found@).push(word@)
            } else {
                words_model(found@)
            },
        decreases line@.len() - i,
    {
        let b = line[i];
        let ghost read = line@.subrange(0, i as int);
        let ghost more = line@.subrange(0, i + 1);
        assert(more.drop_last() =~= read);
        assert(more.last() == b);
        if b == 32 || b == 9 || b == 10 || b == 13 {
            if word.len() > 0 {
                let ghost earlier = words_model(found@);
                let ghost closed = word@;
                found.push(word);
                word = Vec::new();
                assert(words_model(found@) =~= earlier.push(closed));
            }
        } else {
            let ghost earlier = word@;
            word.push(b);
            proof {
                if earlier.len() > 0 {
                    assert(more[more.len() - 2] == line@[i - 1]);
                    assert(words(read).drop_last() =~= words_model(found@));
                    assert(words(read).last() == earlier);
                } else {
                    assert(i > 0 ==> more[more.len() - 2] == line@[i - 1]);
                    assert(word@ =~= seq![b]);
                }
            }
        }
        i = i + 1;
    }
    assert(line@.subrange(0, line@.len() as int) =~= line@);
    if word.len() > 0 {
        let ghost earlier = words_model(found@);
        let ghost closed = word@;
        found.push(word);
        assert(words_model(found@) =~= earlier.push(closed));
    }
    found
}

/// The command that a reader remembers after a line: a blank line and a
/// line that could not be parsed leave it as it was, and any other line
/// is remembered.
pub open spec fn remembered<A>(
    last: Option<Command<A>>,
    line: Seq<char>,
    parsed: Option<Command<A>>,
) -> Option<Command<A>> {
    if blank(line) {
        last
    } else {
        match parsed {
            Some(command) => Some(command),
            None => last,
        }
    }
}

/// The command that a line sends to the authoritative loop: a blank line
/// sends the last command that was parsed, if there is one; a line that
/// could not be parsed sends nothing; any other line sends its command.
pub open spec fn issued<A>(
    last: Option<Command<A>>,
    line: Seq<char>,
    parsed: Option<Command<A>>,
) -> Option<Command<A>> {
    if blank(line) {
        last
    } else {
        parsed
    }
}

/// What the reader of one connection remembers between lines.
pub struct Reader<A> {
    last: Option<Command<A>>,
}

impl<A> Reader<A> {
    /// The last command that was parsed.
    pub closed spec fn last_command(&self) -> Option<Command<A>> {
        self.last
    }

    /// A reader that has read nothing.
    pub fn new() -> (reader: Reader<A>)
        ensures
            reader.last_command() is None,
    {
        Reader { last: None }
    }

    /// Takes the line `line`, which the registry has parsed to `parsed`,
    /// and says whether a command is to be sent: the one that
    /// [`Reader::command`] then gives.
    pub fn take_line(&mut self, line: &str, parsed: Option<Command<A>>) -> (send: bool)
        ensures
            final(self).last_command() == remembered(old(self).last_command(), line@, parsed),
            send == issued(old(self).last_command(), line@, parsed).is_some(),
            send ==> final(self).last_command() == issued(
                old(self).last_command(),
                line@,
                parsed,
            ),
    {
        if trim(line).is_empty() {
            self.last.is_some()
        } else {
            match parsed {
                Some(command) => {
                    self.last = Some(command);
                    true
                },
                None => false,
            }
        }
    }

    /// The command to send after a line that sends one.
    pub fn command(&self) -> (command: Option<&Command<A>>)
        ensures
            match command {
                Some(c) => self.last_command() == Some(*c),
                None => self.last_command() is None,
            },
    {
        self.last.as_ref()
    }
}

} // verus!
