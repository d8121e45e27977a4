//! The command line: a verb, and what follows its first space.

use vstd::prelude::*;
use vstd::string::{StrSliceExecFns, StringExecFns};
use crate::editor::BufferEditor;
use crate::registry::{is_fresh, search_texts, Registry};
use crate::search::string_of;
use crate::text::{chars_of, find_from, first_index_of, lemma_first_index_of};

verus! {

/// What is reported for a verb that is no command.
pub const NOT_RECOGNIZED: &'static str = "command not recognized";

/// The characters that Unicode marks as `White_Space`.
pub open spec fn is_whitespace(c: char) -> bool {
    let u = c as u32;
    ||| 0x09 <= u <= 0x0D
    ||| u == 0x20
    ||| u == 0x85
    ||| u == 0xA0
    ||| u == 0x1680
    ||| 0x2000 <= u <= 0x200A
    ||| u == 0x2028
    ||| u == 0x2029
    ||| u == 0x202F
    ||| u == 0x205F
    ||| u == 0x3000
}

/// The length of the longest prefix of `s` whose characters are all
/// whitespace (`blank`) or all no whitespace (not `blank`).
pub open spec fn run_len(s: Seq<char>, blank: bool) -> nat
    decreases s.len(),
{
    if s.len() == 0 || is_whitespace(s[0]) != blank {
        0
    } else {
        1 + run_len(s.drop_first(), blank)
    }
}

/// The first run of characters of `s` that are no whitespace, if `s` has
/// one.
pub open spec fn first_token(s: Seq<char>) -> Option<Seq<char>> {
    let t = s.skip(run_len(s, true) as int);
    if t.len() == 0 {
        None
    } else {
        Some(t.take(run_len(t, false) as int))
    }
}

/// What follows the first token of `s`.
pub open spec fn after_first_token(s: Seq<char>) -> Seq<char> {
    let t = s.skip(run_len(s, true) as int);
    t.skip(run_len(t, false) as int)
}

/// The second run of characters of `s` that are no whitespace, if `s` has
/// two.
pub open spec fn second_token(s: Seq<char>) -> Option<Seq<char>> {
    first_token(after_first_token(s))
}

/// The verb of a command line: what stands before its first space, the
/// whole line where it has none.
pub open spec fn verb(cmd: Seq<char>) -> Seq<char> {
    cmd.take(first_index_of(cmd, ' '))
}

/// What follows the first space of a command line; empty where it has
/// none.
pub open spec fn rest(cmd: Seq<char>) -> Seq<char> {
    let i = first_index_of(cmd, ' ');
    if i < cmd.len() {
        cmd.skip(i + 1)
    } else {
        Seq::empty()
    }
}

/// A command line, read.
pub enum Parsed {
    /// Open the buffer of this name, or an anonymous one.
    Open(Option<Seq<char>>),
    /// Search all buffers for this term.
    Search(Seq<char>),
    /// No command.
    Unknown,
}

/// Reads a command line. `open` takes the first token after the verb as
/// the name of the buffer; `search` takes all that follows the first space
/// as the term.
pub open spec fn parse(cmd: Seq<char>) -> Parsed {
    if verb(cmd) == "open"@ {
        Parsed::Open(first_token(rest(cmd)))
    } else if verb(cmd) == "search"@ {
        Parsed::Search(rest(cmd))
    } else {
        Parsed::Unknown
    }
}

/// A command.
#[derive(Debug, PartialEq, Eq)]
pub enum Command {
    /// Open the buffer of this name, or an anonymous one.
    Open(Option<String>),
    /// Search all buffers for this term.
    Search(String),
    /// No command.
    Unknown,
}

impl View for Command {
    type V = Parsed;

    open spec fn view(&self) -> Parsed {
        match self {
            Command::Open(name) => Parsed::Open(name.deep_view()),
            Command::Search(term) => Parsed::Search(term@),
            Command::Unknown => Parsed::Unknown,
        }
    }
}

/// What the host has to do after a command.
#[derive(Debug, PartialEq, Eq)]
pub enum Outcome {
    /// Enter the modal loop of the session under this name.
    Entered(String),
    /// Print these lines.
    Matches(Vec<String>),
    /// Report `NOT_RECOGNIZED`.
    NotRecognized,
}

/// `run_len` lies within `s`, the characters before it are of the kind
/// asked for, and the character at it, if any, is not.
pub proof fn lemma_run_len(s: Seq<char>, blank: bool)
    ensures
        run_len(s, blank) <= s.len(),
        forall|j: int| 0 <= j < run_len(s, blank) ==> is_whitespace(s[j]) == blank,
        run_len(s, blank) < s.len() ==> is_whitespace(s[run_len(s, blank) as int]) != blank,
    decreases s.len(),
{
    if s.len() == 0 || is_whitespace(s[0]) != blank {
    } else {
        let t = s.drop_first();
        lemma_run_len(t, blank);
        assert forall|j: int| 0 <= j < run_len(s, blank) implies is_whitespace(s[j]) == blank by {
            if j > 0 {
                assert(s[j] == t[j - 1]);
            }
        }
    }
}

/// A position of which the three facts of `lemma_run_len` hold is `run_len`.
pub proof fn lemma_run_len_unique(s: Seq<char>, blank: bool, i: int)
    requires
        0 <= i <= s.len(),
        forall|j: int| 0 <= j < i ==> is_whitespace(s[j]) == blank,
        i < s.len() ==> is_whitespace(s[i]) != blank,
    ensures
        run_len(s, blank) == i,
    decreases s.len(),
{
    if s.len() == 0 || is_whitespace(s[0]) != blank {
    } else {
        let t = s.drop_first();
        assert forall|j: int| 0 <= j < i - 1 implies is_whitespace(t[j]) == blank by {
            assert(t[j] == s[j + 1]);
        }
        lemma_run_len_unique(t, blank, i - 1);
    }
}

/// On a command line with the verb `open`, the second token of the line is
/// the first token of what follows the verb.
pub proof fn lemma_open_names_second_token(cmd: Seq<char>)
    requires
        verb(cmd) == "open"@,
    ensures
        second_token(cmd) == first_token(rest(cmd)),
{
    reveal_strlit("open");
    lemma_first_index_of(cmd, ' ');
    let i = first_index_of(cmd, ' ');
    let word = "open"@;
    assert(word.len() == 4);
    assert(verb(cmd).len() == i);
    assert(word[0] == 'o' && word[1] == 'p' && word[2] == 'e' && word[3] == 'n');
    assert forall|j: int| 0 <= j < 4 implies !is_whitespace(cmd[j]) by {
        assert(cmd[j] == verb(cmd)[j]);
    }
    lemma_run_len_unique(cmd, true, 0);
    assert(cmd.skip(0) =~= cmd);
    lemma_run_len_unique(cmd, false, 4);
    if i < cmd.len() {
        let tail = cmd.skip(4);
        assert(tail.drop_first() =~= rest(cmd));
        assert(tail[0] == ' ');
        assert(is_whitespace(tail[0]));
        assert(run_len(tail, true) == 1 + run_len(rest(cmd), true));
        lemma_run_len(rest(cmd), true);
        assert(tail.skip(run_len(tail, true) as int) =~= rest(cmd).skip(
            run_len(rest(cmd), true) as int,
        ));
    } else {
        assert(cmd.skip(4) =~= rest(cmd));
    }
}

/// Whether `c` is whitespace.
pub fn is_whitespace_char(c: char) -> (blank: bool)
    ensures
        blank == is_whitespace(c),
{
    let u: u32 = c as u32;
    (0x09 <= u && u <= 0x0D) || u == 0x20 || u == 0x85 || u == 0xA0 || u == 0x1680 || (0x2000 <= u
        && u <= 0x200A) || u == 0x2028 || u == 0x2029 || u == 0x202F || u == 0x205F || u == 0x3000
}

/// The end of the run of whitespace (`blank`) or of other characters (not
/// `blank`) that starts at `start` in `v`.
fn skip_run(v: &Vec<char>, start: usize, blank: bool) -> (end: usize)
    requires
        start <= v@.len(),
    ensures
        end == start + run_len(v@.skip(start as int), blank),
        start <= end <= v@.len(),
{
    let mut i: usize = start;
    while i < v.len() && is_whitespace_char(v[i]) == blank
        invariant
            start <= i <= v@.len(),
            forall|j: int| start <= j < i ==> is_whitespace(v@[j]) == blank,
        decreases v@.len() - i,
    {
        i = i + 1;
    }
    proof {
        lemma_run_len_unique(v@.skip(start as int), blank, i - start);
    }
    i
}

/// The first token of `v` at or after `start`.
fn token_from(v: &Vec<char>, start: usize) -> (token: Option<String>)
    requires
        start <= v@.len(),
    ensures
        token.deep_view() == first_token(v@.skip(start as int)),
{
    let from = skip_run(v, start, true);
    if from == v.len() {
        assert(v@.skip(start as int).skip(from - start).len() == 0);
        None
    } else {
        let to = skip_run(v, from, false);
        let word = string_of(v, from, to);
        proof {
            let t = v@.skip(start as int).skip(from - start);
            assert(t =~= v@.skip(from as int));
            assert(t.take(to - from) =~= v@.subrange(from as int, to as int));
        }
        Some(word)
    }
}

/// The verb of a command line: what stands before its first space, the
/// whole line where it has none.
pub fn first_word(s: &str) -> (word: &str)
    ensures
        word@ == verb(s@),
{
    let chars = chars_of(s);
    let i = find_from(&chars, 0, ' ');
    proof {
        assert(chars@.skip(0) =~= s@);
    }
    let word = s.substring_char(0, i);
    assert(word@ =~= s@.take(i as int));
    word
}

/// Reads a command line.
pub fn parse_command(cmd: &str) -> (command: Command)
    ensures
        command@ == parse(cmd@),
{
    let chars = chars_of(cmd);
    let n = chars.len();
    let i = find_from(&chars, 0, ' ');
    let word = string_of(&chars, 0, i);
    let from = if i < n { i + 1 } else { n };
    proof {
        assert(chars@.skip(0) =~= cmd@);
        assert(word@ =~= verb(cmd@));
        assert(chars@.skip(from as int) =~= rest(cmd@));
    }
    if word == String::from_str("open") {
        Command::Open(token_from(&chars, from))
    } else if word == String::from_str("search") {
        let term = string_of(&chars, from, n);
        assert(term@ =~= rest(cmd@));
        Command::Search(term)
    } else {
        Command::Unknown
    }
}

/// The session that a command line names with its second token, created
/// fresh where the name has none; where the line has no second token, a
/// fresh session under the first free anonymous name.
pub fn fetch_editor<'a>(registry: &'a mut Registry, cmd: &str) -> (editor: &'a mut BufferEditor)
    requires
        old(registry).wf(),
    ensures
        final(registry).wf(),
        old(registry)@.contains_key(old(registry).key_for(second_token(cmd@))) ==> *editor == old(
            registry,
        )@[old(registry).key_for(second_token(cmd@))],
        !old(registry)@.contains_key(old(registry).key_for(second_token(cmd@))) ==> is_fresh(
            *editor,
        ),
        final(registry)@ == old(registry)@.insert(
            old(registry).key_for(second_token(cmd@)),
            *final(editor),
        ),
        final(registry).names() == old(registry).names_with(
            old(registry).key_for(second_token(cmd@)),
        ),
        final(registry).editors() == old(registry).editors_with(
            old(registry).key_for(second_token(cmd@)),
            *final(editor),
        ),
        old(registry).next_id() <= final(registry).next_id(),
        second_token(cmd@).is_some() ==> final(registry).next_id() == old(registry).next_id(),
        second_token(cmd@).is_none() ==> final(registry).next_id() == old(registry).lowest_free(),
        second_token(cmd@).is_none() ==> old(registry).is_lowest_free(
            old(registry).lowest_free(),
        ),
{
    let chars = chars_of(cmd);
    let a = skip_run(&chars, 0, true);
    let b = skip_run(&chars, a, false);
    let name = token_from(&chars, b);
    proof {
        assert(chars@.skip(0) =~= cmd@);
        assert(cmd@.skip(a as int).skip(b - a) =~= chars@.skip(b as int));
    }
    registry.fetch_or_create(name)
}

/// Runs a command line on the registry and says what the host has to do.
/// `open` makes sure that the session exists; `search` collects the
/// matching lines; anything else changes nothing.
pub fn run_command(cmd: &str, registry: &mut Registry) -> (outcome: Outcome)
    requires
        old(registry).wf(),
    ensures
        final(registry).wf(),
        old(registry).next_id() <= final(registry).next_id(),
        match parse(cmd@) {
            Parsed::Open(name) => {
                &&& outcome matches Outcome::Entered(key)
                &&& key@ == old(registry).key_for(name)
                &&& old(registry).opened(*final(registry), old(registry).key_for(name))
                &&& old(registry).opened_map(final(registry)@, old(registry).key_for(name))
                &&& name.is_some() ==> final(registry).next_id() == old(registry).next_id()
                &&& name.is_none() ==> final(registry).next_id() == old(registry).lowest_free()
                &&& name.is_none() ==> !old(registry).names().contains(old(registry).key_for(name))
            },
            Parsed::Search(term) => {
                &&& outcome matches Outcome::Matches(lines)
                &&& lines.deep_view() == search_texts(old(registry).editors(), term)
                &&& *final(registry) == *old(registry)
            },
            Parsed::Unknown => {
                &&& outcome is NotRecognized
                &&& *final(registry) == *old(registry)
            },
        },
{
    match parse_command(cmd) {
        Command::Open(name) => {
            let i = registry.open_at(name);
            Outcome::Entered(registry.name_at(i))
        },
        Command::Search(term) => Outcome::Matches(registry.search_all(term.as_str())),
        Command::Unknown => Outcome::NotRecognized,
    }
}

} // verus!
