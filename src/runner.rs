//! The run over all sources: the validated configuration, the banner that
//! precedes each source, and the message for a source that cannot be opened.
use crate::count::{decimal_value, is_valid_count, parse_positive_int};
use vstd::prelude::*;
use vstd::string::StringSliceAdditionalSpecFns;

verus! {

/// How much of each source is kept: its first lines, or its first bytes.
#[derive(Debug, Clone, Copy, PartialEq, Eq)]
pub enum Mode {
    Lines(usize),
    Bytes(usize),
}

/// The settings of one run. When `bytes` is set, byte mode is active and
/// `lines` plays no part.
#[derive(Debug)]
pub struct Config {
    pub files: Vec<String>,
    pub lines: usize,
    pub bytes: Option<usize>,
}

/// The name of standard input as text.
pub open spec fn stdin_text() -> Seq<char> {
    seq!['-']
}

/// The message for a count that is rejected; `kind` is "line" or "byte".
pub open spec fn count_error(kind: Seq<char>, text: Seq<char>) -> Seq<char> {
    seq!['i', 'l', 'l', 'e', 'g', 'a', 'l', ' '] + kind + seq![
        ' ',
        'c',
        'o',
        'u',
        'n',
        't',
        ' ',
        '-',
        '-',
        ' ',
    ] + text
}

impl Config {
    /// At least one source, and a positive count for the active mode.
    pub open spec fn wf(&self) -> bool {
        &&& self.files@.len() > 0
        &&& match self.bytes {
            Some(b) => b > 0,
            None => self.lines > 0,
        }
    }

    pub open spec fn spec_mode(&self) -> Mode {
        match self.bytes {
            Some(b) => Mode::Bytes(b),
            None => Mode::Lines(self.lines),
        }
    }

    /// The active mode.
    pub fn mode(&self) -> (r: Mode)
        ensures
            r == self.spec_mode(),
    {
        match self.bytes {
            Some(b) => Mode::Bytes(b),
            None => Mode::Lines(self.lines),
        }
    }

    /// The source names, in the order in which they are processed.
    pub fn files(&self) -> (r: &Vec<String>)
        ensures
            r == &self.files,
    {
        &self.files
    }
}

fn count_message(kind: &str, text: &str) -> (r: String)
    ensures
        r@ == count_error(kind@, text@),
{
    let mut m = "illegal ".to_owned();
    m.append(kind);
    m.append(" count -- ");
    m.append(text);
    proof {
        reveal_strlit("illegal ");
        reveal_strlit(" count -- ");
    }
    assert(m@ =~= count_error(kind@, text@));
    m
}

/// Builds the configuration from the command line's values: the source
/// names (standard input when there are none), the line count text, and the
/// byte count text if one was given. A given byte count selects byte mode
/// and the line count is then not read. A count that is not a positive
/// integer is an error whose message quotes it.
pub fn config_from_args(files: Vec<String>, lines: &str, bytes: Option<&str>) -> (r: Result<
    Config,
    String,
>)
    ensures
        r is Ok <==> match bytes {
            Some(b) => is_valid_count(b.spec_bytes()),
            None => is_valid_count(lines.spec_bytes()),
        },
        r matches Ok(c) ==> {
            &&& c.wf()
            &&& files@.len() > 0 ==> c.files@ == files@
            &&& files@.len() == 0 ==> c.files@.len() == 1 && c.files@[0]@ == stdin_text()
            &&& match bytes {
                Some(b) => c.spec_mode() == Mode::Bytes(decimal_value(b.spec_bytes()) as usize),
                None => c.spec_mode() == Mode::Lines(decimal_value(lines.spec_bytes()) as usize),
            }
        },
        r matches Err(m) ==> m@ == match bytes {
            Some(b) => count_error(seq!['b', 'y', 't', 'e'], b@),
            None => count_error(seq!['l', 'i', 'n', 'e'], lines@),
        },
{
    let mut names = files;
    if names.len() == 0 {
        names.push("-".to_owned());
        proof {
            reveal_strlit("-");
        }
    }
    proof {
        reveal_strlit("byte");
        reveal_strlit("line");
    }
    match bytes {
        Some(b) => match parse_positive_int(b) {
            Ok(n) => Ok(Config { files: names, lines: 0, bytes: Some(n) }),
            Err(e) => Err(count_message("byte", e.as_str())),
        },
        None => match parse_positive_int(lines) {
            Ok(n) => Ok(Config { files: names, lines: n, bytes: None }),
            Err(e) => Err(count_message("line", e.as_str())),
        },
    }
}

/// The banner line `==> name <==` with its newline.
pub open spec fn banner_line(name: Seq<char>) -> Seq<char> {
    seq!['=', '=', '>', ' '] + name + seq![' ', '<', '=', '=', '\n']
}

/// What is written before a source's output: nothing when the run has one
/// source; else its banner, after a blank line unless no banner came before.
pub open spec fn banner_text(num_sources: nat, printed: bool, name: Seq<char>) -> Seq<char> {
    if num_sources <= 1 {
        seq![]
    } else if printed {
        seq!['\n'] + banner_line(name)
    } else {
        banner_line(name)
    }
}

/// The line reported for a source that cannot be opened, without its newline.
pub open spec fn error_text(name: Seq<char>, reason: Seq<char>) -> Seq<char> {
    name + seq![':', ' '] + reason
}

/// The line `<name>: <reason>` for a source that could not be opened.
pub fn error_line(name: &str, reason: &str) -> (r: String)
    ensures
        r@ == error_text(name@, reason@),
{
    let mut m = name.to_owned();
    m.append(": ");
    m.append(reason);
    proof {
        reveal_strlit(": ");
    }
    assert(m@ =~= error_text(name@, reason@));
    m
}

/// What the run remembers from one source to the next.
#[derive(Debug, Clone, Copy, PartialEq, Eq)]
pub struct RunState {
    pub num_sources: usize,
    pub banner_printed: bool,
}

impl RunState {
    /// The state before the first of `num_sources` sources.
    pub fn new(num_sources: usize) -> (r: RunState)
        ensures
            r == RunState::start(num_sources),
    {
        RunState { num_sources, banner_printed: false }
    }

    pub open spec fn start(num_sources: usize) -> RunState {
        RunState { num_sources, banner_printed: false }
    }

    /// The state after a source was opened (`true`) or could not be (`false`).
    pub open spec fn step(self, opened: bool) -> RunState {
        if opened {
            RunState { banner_printed: true, ..self }
        } else {
            self
        }
    }

    /// The state after sources whose openings went as `opened` says.
    pub open spec fn after(self, opened: Seq<bool>) -> RunState
        decreases opened.len(),
    {
        if opened.len() == 0 {
            self
        } else {
            self.after(opened.drop_last()).step(opened.last())
        }
    }

    /// What to write before the output of the opened source `name`.
    pub fn banner(&self, name: &str) -> (r: String)
        ensures
            r@ == banner_text(self.num_sources as nat, self.banner_printed, name@),
    {
        if self.num_sources <= 1 {
            return String::new();
        }
        let mut m = if self.banner_printed {
            "\n==> ".to_owned()
        } else {
            "==> ".to_owned()
        };
        m.append(name);
        m.append(" <==\n");
        proof {
            reveal_strlit("\n==> ");
            reveal_strlit("==> ");
            reveal_strlit(" <==\n");
        }
        assert(m@ =~= banner_text(self.num_sources as nat, self.banner_printed, name@));
        m
    }

    /// Records that a source was opened and its output written.
    pub fn source_done(&mut self)
        ensures
            *final(self) == old(self).step(true),
    {
        self.banner_printed = true;
    }
}

/// With a single source no banner is written, whatever the mode or state.
pub proof fn lemma_single_source_no_banner(printed: bool, name: Seq<char>)
    ensures
        banner_text(1, printed, name) == Seq::<char>::empty(),
{
}

proof fn lemma_printed_after(s: RunState, opened: Seq<bool>)
    ensures
        s.after(opened).num_sources == s.num_sources,
        s.after(opened).banner_printed == (s.banner_printed || exists|j: int|
            0 <= j < opened.len() && opened[j]),
    decreases opened.len(),
{
    if opened.len() > 0 {
        let p = opened.drop_last();
        lemma_printed_after(s, p);
        if exists|j: int| 0 <= j < p.len() && p[j] {
            let j = choose|j: int| 0 <= j < p.len() && p[j];
            assert(opened[j]);
        }
        if exists|j: int| 0 <= j < opened.len() && opened[j] {
            let j = choose|j: int| 0 <= j < opened.len() && opened[j];
            if j < p.len() {
                assert(p[j]);
            }
        }
    }
}

/// A source that cannot be opened leaves the run as it was, so the sources
/// after it are handled as if it were not listed; what it reports is the
/// single line `<name>: <reason>`.
pub proof fn lemma_failed_source_isolated(s: RunState, name: Seq<char>, reason: Seq<char>)
    requires
        !name.contains('\n'),
        !reason.contains('\n'),
    ensures
        s.step(false) == s,
        !error_text(name, reason).contains('\n'),
        error_text(name, reason).take(name.len() as int) == name,
{
    let e = error_text(name, reason);
    assert(e.take(name.len() as int) =~= name);
    if e.contains('\n') {
        let k = choose|k: int| 0 <= k < e.len() && e[k] == '\n';
        if k < name.len() {
            assert(name[k] == '\n');
        } else if k >= name.len() + 2 {
            assert(reason[k - name.len() - 2] == '\n');
        }
    }
}

/// With several sources, each opened source gets its banner; the first
/// banner of the run comes without a blank line and every later one after
/// exactly one. Sources that could not be opened get none and do not count.
pub proof fn lemma_banners_of_run(num_sources: usize, opened: Seq<bool>, i: int, name: Seq<char>)
    requires
        num_sources >= 2,
        0 <= i < opened.len(),
        opened[i],
    ensures
        ({
            let state = RunState::start(num_sources).after(opened.take(i));
            banner_text(state.num_sources as nat, state.banner_printed, name) == if exists|j: int|
                0 <= j < i && opened[j] {
                seq!['\n'] + banner_line(name)
            } else {
                banner_line(name)
            }
        }),
{
    let p = opened.take(i);
    lemma_printed_after(RunState::start(num_sources), p);
    if exists|j: int| 0 <= j < i && opened[j] {
        let j = choose|j: int| 0 <= j < i && opened[j];
        assert(p[j]);
    }
    if exists|j: int| 0 <= j < p.len() && p[j] {
        let j = choose|j: int| 0 <= j < p.len() && p[j];
        assert(opened[j]);
    }
}

} // verus!
