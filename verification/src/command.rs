//! The commands of the interactive shell: what a line of input, split into
//! words, asks for.

use vstd::prelude::*;
use vstd::string::StringExecFns;
use vstd::utf8::encode_utf8;
use vstd::utf8::encode_utf8_decode_utf8;

verus! {

/// What a line of input asks for.
#[derive(Debug, Clone, PartialEq, Eq)]
pub enum Command {
    /// The line holds no word.
    Nothing,
    /// Mine and append this message.
    Chat(String),
    /// `chat` without a message.
    ChatUsage,
    /// List the archive.
    History,
    /// List the known peers.
    Peers,
    /// Show port, number of peers and length of the archive.
    Status,
    /// Dial this address.
    AddPeer(String),
    /// `addpeer` without an address.
    AddPeerUsage,
    /// Append every line of this file as a message.
    FileChat(String),
    /// `filechat` without a path.
    FileChatUsage,
    /// Show the list of commands.
    Help,
    /// Leave the program.
    Quit,
    /// A first word that names no command.
    Unknown(String),
}

/// The model of a [`Command`].
pub enum CommandView {
    Nothing,
    Chat(Seq<char>),
    ChatUsage,
    History,
    Peers,
    Status,
    AddPeer(Seq<char>),
    AddPeerUsage,
    FileChat(Seq<char>),
    FileChatUsage,
    Help,
    Quit,
    Unknown(Seq<char>),
}

impl View for Command {
    type V = CommandView;

    open spec fn view(&self) -> CommandView {
        match self {
            Command::Nothing => CommandView::Nothing,
            Command::Chat(message) => CommandView::Chat(message@),
            Command::ChatUsage => CommandView::ChatUsage,
            Command::History => CommandView::History,
            Command::Peers => CommandView::Peers,
            Command::Status => CommandView::Status,
            Command::AddPeer(address) => CommandView::AddPeer(address@),
            Command::AddPeerUsage => CommandView::AddPeerUsage,
            Command::FileChat(path) => CommandView::FileChat(path@),
            Command::FileChatUsage => CommandView::FileChatUsage,
            Command::Help => CommandView::Help,
            Command::Quit => CommandView::Quit,
            Command::Unknown(word) => CommandView::Unknown(word@),
        }
    }
}

/// The words with one space between each two of them.
pub open spec fn joined(words: Seq<Seq<char>>) -> Seq<char>
    decreases words.len(),
{
    if words.len() == 0 {
        Seq::empty()
    } else if words.len() == 1 {
        words[0]
    } else {
        joined(words.drop_last()) + seq![' '] + words.last()
    }
}

/// The texts of `words`.
pub open spec fn texts(words: Seq<&str>) -> Seq<Seq<char>> {
    words.map_values(|word: &str| word@)
}

/// What the words of a line ask for. The first word names the command, by
/// its full name or by its one-letter short form; a message is made of all
/// the words after it, an address or a path of the first of them.
pub open spec fn command_of(words: Seq<Seq<char>>) -> CommandView {
    if words.len() == 0 {
        CommandView::Nothing
    } else {
        let word = words[0];
        let args = words.skip(1);
        if word == "c"@ || word == "chat"@ {
            if args.len() == 0 {
                CommandView::ChatUsage
            } else {
                CommandView::Chat(joined(args))
            }
        } else if word == "h"@ || word == "history"@ {
            CommandView::History
        } else if word == "p"@ || word == "peers"@ {
            CommandView::Peers
        } else if word == "s"@ || word == "status"@ {
            CommandView::Status
        } else if word == "a"@ || word == "addpeer"@ {
            if args.len() == 0 {
                CommandView::AddPeerUsage
            } else {
                CommandView::AddPeer(args[0])
            }
        } else if word == "f"@ || word == "filechat"@ {
            if args.len() == 0 {
                CommandView::FileChatUsage
            } else {
                CommandView::FileChat(args[0])
            }
        } else if word == "?"@ || word == "help"@ {
            CommandView::Help
        } else if word == "q"@ || word == "quit"@ {
            CommandView::Quit
        } else {
            CommandView::Unknown(word)
        }
    }
}

/// Whether two strings hold the same text.
fn same_text(a: &str, b: &str) -> (same: bool)
    ensures
        same == (a@ == b@),
{
    let x: &[u8] = a.as_bytes();
    let y: &[u8] = b.as_bytes();
    proof {
        encode_utf8_decode_utf8(a@);
        encode_utf8_decode_utf8(b@);
    }
    if x.len() != y.len() {
        return false;
    }
    let mut i: usize = 0;
    while i < x.len()
        invariant
            i <= x@.len(),
            x@.len() == y@.len(),
            x@ == encode_utf8(a@),
            y@ == encode_utf8(b@),
            forall|j: int| 0 <= j < i ==> x@[j] == y@[j],
        decreases x@.len() - i,
    {
        if x[i] != y[i] {
            return false;
        }
        i += 1;
    }
    assert(x@ =~= y@);
    true
}

/// Whether `word` names a command by its short or by its full name.
fn names(word: &str, short: &str, full: &str) -> (hit: bool)
    ensures
        hit == (word@ == short@ || word@ == full@),
{
    same_text(word, short) || same_text(word, full)
}

/// The words `words[from..]` with one space between each two of them.
fn join_from(words: &[&str], from: usize) -> (text: String)
    requires
        from <= words@.len(),
    ensures
        text@ == joined(texts(words@).skip(from as int)),
{
    let ghost args = texts(words@).skip(from as int);
    let mut text: String = String::new();
    let mut i: usize = from;
    proof {
        reveal_strlit(" ");
        assert(args.subrange(0, 0) =~= Seq::<Seq<char>>::empty());
    }
    while i < words.len()
        invariant
            from <= i <= words@.len(),
            args == texts(words@).skip(from as int),
            text@ == joined(args.subrange(0, i - from)),
            " "@ == seq![' '],
        decreases words@.len() - i,
    {
        let ghost before = args.subrange(0, i - from);
        let ghost upto = args.subrange(0, i - from + 1);
        proof {
            assert(upto.drop_last() =~= before);
            assert(upto.last() == words@[i as int]@);
        }
        if i > from {
            text.append(" ");
        }
        text.append(words[i]);
        proof {
            if i == from {
                assert(before =~= Seq::<Seq<char>>::empty());
                assert(text@ =~= upto[0]);
            } else {
                assert(text@ =~= joined(before) + seq![' '] + upto.last());
            }
        }
        i += 1;
    }
    assert(args.subrange(0, i - from) =~= args);
    text
}

/// What the words of a line ask for.
pub fn parse_command(words: &[&str]) -> (command: Command)
    ensures
        command@ == command_of(texts(words@)),
{
    if words.len() == 0 {
        return Command::Nothing;
    }
    let word: &str = words[0];
    let has_args: bool = words.len() > 1;
    assert(texts(words@)[0] == word@);
    assert(texts(words@).skip(1).len() == words@.len() - 1);
    if names(word, "c", "chat") {
        if has_args {
            Command::Chat(join_from(words, 1))
        } else {
            Command::ChatUsage
        }
    } else if names(word, "h", "history") {
        Command::History
    } else if names(word, "p", "peers") {
        Command::Peers
    } else if names(word, "s", "status") {
        Command::Status
    } else if names(word, "a", "addpeer") {
        if has_args {
            assert(texts(words@).skip(1)[0] == words@[1]@);
            Command::AddPeer(String::from_str(words[1]))
        } else {
            Command::AddPeerUsage
        }
    } else if names(word, "f", "filechat") {
        if has_args {
            assert(texts(words@).skip(1)[0] == words@[1]@);
            Command::FileChat(String::from_str(words[1]))
        } else {
            Command::FileChatUsage
        }
    } else if names(word, "?", "help") {
        Command::Help
    } else if names(word, "q", "quit") {
        Command::Quit
    } else {
        Command::Unknown(String::from_str(word))
    }
}

} // verus!
