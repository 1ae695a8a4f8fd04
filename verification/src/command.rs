//! Valkey commands as plain data.
//!
//! What a service asks of Valkey is decided here, word for word; whoever holds the
//! connection only sends the words and hands back the reply.

use vstd::prelude::*;
use crate::text;

verus! {

/// One command: its name and its arguments.
#[derive(Debug)]
pub struct Command {
    pub words: Vec<String>,
}

impl View for Command {
    type V = Seq<Seq<char>>;

    open spec fn view(&self) -> Seq<Seq<char>> {
        text::texts(self.words@)
    }
}

/// The words of each command of a pipeline, in order.
pub open spec fn pipeline(commands: Seq<Command>) -> Seq<Seq<Seq<char>>> {
    Seq::new(commands.len(), |i: int| commands[i]@)
}

impl Command {
    /// A command without arguments.
    pub fn new(name: &str) -> (r: Command)
        ensures
            r@ == seq![name@],
    {
        let mut words: Vec<String> = Vec::new();
        words.push(name.to_owned());
        assert(text::texts(words@) =~= seq![name@]);
        Command { words }
    }

    /// The command with one more argument.
    pub fn arg(self, word: &str) -> (r: Command)
        ensures
            r@ == self@.push(word@),
    {
        let mut words: Vec<String> = self.words;
        let ghost before = words@;
        words.push(word.to_owned());
        proof {
            text::lemma_texts_push(before, words@.last());
        }
        Command { words }
    }

    /// The command with one more argument, an integer in decimal.
    pub fn arg_i64(self, n: i64) -> (r: Command)
        ensures
            r@ == self@.push(text::decimal(n as int)),
    {
        let word: String = text::format_i64(n);
        self.arg(word.as_str())
    }
}

/// `EXPIRE key secs`.
pub open spec fn expire_words(key: Seq<char>, secs: int) -> Seq<Seq<char>> {
    seq!["EXPIRE"@, key, text::decimal(secs)]
}

/// Lets a key live for `secs` seconds more.
pub fn expire(key: &str, secs: i64) -> (r: Command)
    ensures
        r@ == expire_words(key@, secs as int),
        r@ == seq!["EXPIRE"@, key@, text::decimal(secs as int)],
{
    let c: Command = Command::new("EXPIRE").arg(key).arg_i64(secs);
    assert(c@ =~= expire_words(key@, secs as int));
    c
}

} // verus!
