//! The bridge to the solver: its configuration, the command line it is
//! started with, and the reading of what it prints.
use crate::number::{decimal, push_decimal, truncate_value, truncated_value};
use crate::record::{views, Position, PositionView, Record, RecordView};
use crate::text::{
    after_prefix, chars_of, extend, lines, lines_of, lowered, rows, split, split_on, string_of,
    strip_prefix, texts, to_ascii_lowercase, trim, trimmed,
};
use vstd::prelude::*;

verus! {

/// The text that `{:?}` writes for a list of strings `items`: the items in
/// square brackets, each in double quotes with its special characters
/// escaped, separated by a comma and a space.
pub uninterp spec fn list_debug_text(items: Seq<Seq<char>>) -> Seq<char>;

/// Writes a list of strings with `format!` and `{:?}`: the result depends on
/// the strings alone and is the text named `list_debug_text`.
#[verifier::external_body]
fn debug_list(items: &Vec<String>) -> (r: String)
    ensures
        r@ == list_debug_text(texts(items@)),
{
    format!("{:?}", items)
}

/// The strings of the rows of `v`.
pub fn strings_of(v: &Vec<Vec<char>>) -> (r: Vec<String>)
    ensures
        texts(r@) == rows(v@),
{
    let mut out: Vec<String> = Vec::new();
    let mut i: usize = 0;
    while i < v.len()
        invariant
            i <= v.len(),
            texts(out@) == rows(v@).take(i as int),
        decreases v.len() - i,
    {
        let ghost before = out@;
        let item = string_of(&v[i]);
        out.push(item);
        proof {
            assert(texts(out@) =~= texts(before).push(v@[i as int]@));
            assert(rows(v@).take(i + 1) =~= rows(v@).take(i as int).push(v@[i as int]@));
        }
        i += 1;
    }
    proof {
        assert(rows(v@).take(v.len() as int) =~= rows(v@));
    }
    out
}

/// The parts of an `args` value: the value without the white space around
/// it, split at its commas, each part without the white space around it.
pub open spec fn arg_parts(txt: Seq<char>) -> Seq<Seq<char>> {
    split_on(trimmed(txt), ',').map_values(|part: Seq<char>| trimmed(part))
}

/// The index of the first empty part of `parts`, or their number where none
/// is empty.
pub open spec fn first_empty(parts: Seq<Seq<char>>) -> int
    decreases parts.len(),
{
    if parts.len() == 0 || parts.first().len() == 0 {
        0
    } else {
        1 + first_empty(parts.drop_first())
    }
}

/// What `first_empty` is: every part before it holds something, and the part
/// at it, if there is one, is empty.
pub proof fn lemma_first_empty(parts: Seq<Seq<char>>)
    ensures
        0 <= first_empty(parts) <= parts.len(),
        forall|j: int| 0 <= j < first_empty(parts) ==> (#[trigger] parts[j]).len() > 0,
        first_empty(parts) < parts.len() ==> parts[first_empty(parts)].len() == 0,
    decreases parts.len(),
{
    if parts.len() > 0 && parts.first().len() > 0 {
        let rest = parts.drop_first();
        lemma_first_empty(rest);
        assert forall|j: int| 0 <= j < first_empty(parts) implies (#[trigger] parts[j]).len()
            > 0 by {
            if j > 0 {
                assert(parts[j] == rest[j - 1]);
            }
        }
        if first_empty(parts) < parts.len() {
            assert(parts[first_empty(parts)] == rest[first_empty(rest)]);
        }
    }
}

/// The words that report the empty part at `index` of the `args` value
/// `txt`, whose parts are `parts`.
pub open spec fn empty_part_message(txt: Seq<char>, index: int, parts: Seq<Seq<char>>) -> Seq<
    char,
> {
    "\""@ + txt + "\" contains empty part @"@ + decimal(index as nat) + "! "@ + list_debug_text(
        parts,
    )
}

/// The extra arguments that the `args` value `txt` lists, or the words that
/// report its first empty part. A value that is empty, or white space only,
/// lists no argument.
pub open spec fn parsed_args(txt: Seq<char>) -> Result<Seq<Seq<char>>, Seq<char>> {
    let parts = arg_parts(txt);
    if parts.len() == 1 && parts[0].len() == 0 {
        Ok(Seq::<Seq<char>>::empty())
    } else if first_empty(parts) < parts.len() {
        Err(empty_part_message(txt, first_empty(parts), parts))
    } else {
        Ok(parts)
    }
}

/// Reads the value of the `args` key: extra arguments separated by commas.
pub fn parse_args_tag(txt: &str) -> (r: Result<Vec<String>, String>)
    ensures
        match r {
            Ok(args) => parsed_args(txt@) == Ok::<Seq<Seq<char>>, Seq<char>>(texts(args@)),
            Err(words) => parsed_args(txt@) == Err::<Seq<Seq<char>>, Seq<char>>(words@),
        },
{
    let raw = chars_of(txt);
    let pieces = split(&trim(&raw), ',');
    let ghost cut = split_on(trimmed(txt@), ',');
    let mut parts: Vec<Vec<char>> = Vec::new();
    let mut k: usize = 0;
    while k < pieces.len()
        invariant
            k <= pieces.len(),
            rows(pieces@) == cut,
            rows(parts@) == cut.take(k as int).map_values(|part: Seq<char>| trimmed(part)),
        decreases pieces.len() - k,
    {
        let ghost before = parts@;
        let part = trim(&pieces[k]);
        parts.push(part);
        proof {
            assert(rows(pieces@)[k as int] == pieces@[k as int]@);
            assert(rows(parts@) =~= rows(before).push(trimmed(cut[k as int])));
            assert(cut.take(k + 1).map_values(|part: Seq<char>| trimmed(part)) =~= cut.take(
                k as int,
            ).map_values(|part: Seq<char>| trimmed(part)).push(trimmed(cut[k as int])));
        }
        k += 1;
    }
    proof {
        assert(cut.take(pieces.len() as int) =~= cut);
        crate::text::lemma_split_nonempty(trimmed(txt@), ',');
        assert(rows(parts@)[0] == parts@[0]@);
    }
    let ghost all = rows(parts@);
    proof {
        assert(all =~= arg_parts(txt@));
    }
    if parts.len() == 1 && parts[0].len() == 0 {
        let none: Vec<String> = Vec::new();
        proof {
            assert(texts(none@) =~= Seq::<Seq<char>>::empty());
        }
        return Ok(none);
    }
    let args = strings_of(&parts);
    let mut i: usize = 0;
    proof {
        assert(all.skip(0) =~= all);
    }
    while i < parts.len()
        invariant
            i <= parts.len(),
            all == rows(parts@),
            all == arg_parts(txt@),
            raw@ == txt@,
            texts(args@) == all,
            !(all.len() == 1 && all[0].len() == 0),
            first_empty(all) == i + first_empty(all.skip(i as int)),
        decreases parts.len() - i,
    {
        proof {
            assert(all.skip(i as int).first() == parts@[i as int]@);
            assert(all.skip(i as int).drop_first() =~= all.skip(i + 1));
        }
        if parts[i].len() == 0 {
            let mut words = chars_of("\"");
            extend(&mut words, &raw);
            let middle = chars_of("\" contains empty part @");
            extend(&mut words, &middle);
            push_decimal(&mut words, i as u64);
            let bang = chars_of("! ");
            extend(&mut words, &bang);
            let list = chars_of(debug_list(&args).as_str());
            extend(&mut words, &list);
            return Err(string_of(&words));
        }
        i += 1;
    }
    Ok(args)
}

/// How the solver is started: the directory it runs in, its program, the
/// table it evaluates with, and the extra arguments it is given.
pub struct RuversiRunner {
    pub curdir: String,
    pub path: String,
    pub evfile: String,
    pub verbose: bool,
    pub args: Vec<String>,
}

/// The mathematical value of a `RuversiRunner`.
pub ghost struct RunnerView {
    pub curdir: Seq<char>,
    pub path: Seq<char>,
    pub evfile: Seq<char>,
    pub verbose: bool,
    pub args: Seq<Seq<char>>,
}

impl View for RuversiRunner {
    type V = RunnerView;

    open spec fn view(&self) -> RunnerView {
        RunnerView {
            curdir: self.curdir@,
            path: self.path@,
            evfile: self.evfile@,
            verbose: self.verbose,
            args: texts(self.args@),
        }
    }
}

/// The configuration that is built in.
pub open spec fn default_runner() -> RunnerView {
    RunnerView {
        curdir: "../ruversi"@,
        path: "./target/release/ruversi"@,
        evfile: "data/evaltable.txt"@,
        verbose: false,
        args: seq!["--thinkall"@],
    }
}

/// What one line of a configuration does to `v`. A line that begins with
/// `curdir:`, `path:` or `evfile:` sets that value to the rest of the line
/// without the white space around it. A line that begins with `args:` sets
/// the extra arguments, or fails with the words that report an empty part.
/// Any other line changes nothing.
pub open spec fn line_effect(v: RunnerView, line: Seq<char>) -> Result<RunnerView, Seq<char>> {
    if after_prefix(line, "curdir:"@) is Some {
        Ok(RunnerView { curdir: trimmed(after_prefix(line, "curdir:"@).unwrap()), ..v })
    } else if after_prefix(line, "path:"@) is Some {
        Ok(RunnerView { path: trimmed(after_prefix(line, "path:"@).unwrap()), ..v })
    } else if after_prefix(line, "evfile:"@) is Some {
        Ok(RunnerView { evfile: trimmed(after_prefix(line, "evfile:"@).unwrap()), ..v })
    } else if after_prefix(line, "args:"@) is Some {
        match parsed_args(after_prefix(line, "args:"@).unwrap()) {
            Ok(args) => Ok(RunnerView { args, ..v }),
            Err(words) => Err(words),
        }
    } else {
        Ok(v)
    }
}

/// What the lines of a configuration do to `v`, read from the first: the
/// value after the last line that was applied, and the words of the first
/// line that failed, after which no line is applied.
pub open spec fn config_effect(v: RunnerView, lines: Seq<Seq<char>>) -> (RunnerView, Option<
    Seq<char>,
>)
    decreases lines.len(),
{
    if lines.len() == 0 {
        (v, None)
    } else {
        let front = config_effect(v, lines.drop_last());
        if front.1 is Some {
            front
        } else {
            match line_effect(front.0, lines.last()) {
                Ok(next) => (next, None),
                Err(words) => (front.0, Some(words)),
            }
        }
    }
}

/// What reading a file gave, as values: its text, or the words of the
/// error.
pub open spec fn file_view(file: Result<String, String>) -> Result<Seq<char>, Seq<char>> {
    match file {
        Ok(text) => Ok(text@),
        Err(words) => Err(words@),
    }
}

/// What a configuration file does to `v`: its lines are applied where it
/// was read; where it was not, `v` stays and the words of the error are
/// the failure.
pub open spec fn read_effect(v: RunnerView, file: Result<Seq<char>, Seq<char>>) -> (
    RunnerView,
    Option<Seq<char>>,
) {
    match file {
        Ok(text) => config_effect(v, lines_of(text)),
        Err(words) => (v, Some(words)),
    }
}

/// Once a line has failed, more lines change nothing.
pub proof fn lemma_config_failure_stays(v: RunnerView, all: Seq<Seq<char>>, i: int, k: int)
    requires
        0 <= i <= k <= all.len(),
    ensures
        config_effect(v, all.take(i)).1 is Some ==> config_effect(v, all.take(k)) == config_effect(
            v,
            all.take(i),
        ),
    decreases k - i,
{
    if i < k {
        lemma_config_failure_stays(v, all, i, k - 1);
        assert(all.take(k).drop_last() =~= all.take(k - 1));
    }
}

impl RuversiRunner {
    /// The runner with the built-in configuration.
    pub fn new() -> (r: RuversiRunner)
        ensures
            r@ == default_runner(),
    {
        let mut args: Vec<String> = Vec::new();
        args.push("--thinkall".to_owned());
        proof {
            assert(texts(args@) =~= seq!["--thinkall"@]);
        }
        RuversiRunner {
            curdir: "../ruversi".to_owned(),
            path: "./target/release/ruversi".to_owned(),
            evfile: "data/evaltable.txt".to_owned(),
            verbose: false,
            args,
        }
    }

    /// Sets whether the runner reports what it starts.
    pub fn set_verbose(&mut self, verbose: bool)
        ensures
            final(self)@ == (RunnerView { verbose, ..old(self)@ }),
    {
        self.verbose = verbose;
    }

    /// Applies what reading the configuration file gave: its text, or the
    /// words of the error that kept it from being read, which are handed on
    /// and leave the runner as it was.
    pub fn read(&mut self, file: &Result<String, String>) -> (r: Result<(), String>)
        ensures
            final(self)@ == read_effect(old(self)@, file_view(*file)).0,
            match r {
                Ok(_) => read_effect(old(self)@, file_view(*file)).1 is None,
                Err(words) => read_effect(old(self)@, file_view(*file)).1 == Some(words@),
            },
    {
        match file {
            Ok(content) => self.read_text(content.as_str()),
            Err(words) => Err(words.clone()),
        }
    }

    /// Applies the configuration text `content` line by line. On failure the
    /// lines before the one that failed have been applied.
    pub fn read_text(&mut self, content: &str) -> (r: Result<(), String>)
        ensures
            final(self)@ == config_effect(old(self)@, lines_of(content@)).0,
            match r {
                Ok(_) => config_effect(old(self)@, lines_of(content@)).1 is None,
                Err(words) => config_effect(old(self)@, lines_of(content@)).1 == Some(words@),
            },
    {
        let text = chars_of(content);
        let all_lines = lines(&text);
        let ghost all = lines_of(content@);
        let ghost start = self@;
        let curdir_key = chars_of("curdir:");
        let path_key = chars_of("path:");
        let evfile_key = chars_of("evfile:");
        let args_key = chars_of("args:");
        let mut i: usize = 0;
        while i < all_lines.len()
            invariant
                i <= all_lines.len(),
                rows(all_lines@) == all,
                all == lines_of(content@),
                start == old(self)@,
                curdir_key@ == "curdir:"@,
                path_key@ == "path:"@,
                evfile_key@ == "evfile:"@,
                args_key@ == "args:"@,
                config_effect(start, all.take(i as int)) == (self@, None::<Seq<char>>),
            decreases all_lines.len() - i,
        {
            let line = &all_lines[i];
            proof {
                assert(rows(all_lines@)[i as int] == line@);
                assert(all.take(i + 1).drop_last() =~= all.take(i as int));
                assert(all.take(i + 1).last() == line@);
                lemma_config_failure_stays(start, all, i + 1, all.len() as int);
                assert(all.take(all.len() as int) =~= all);
            }
            if let Some(rest) = strip_prefix(line, &curdir_key) {
                self.curdir = string_of(&trim(&rest));
            } else if let Some(rest) = strip_prefix(line, &path_key) {
                self.path = string_of(&trim(&rest));
            } else if let Some(rest) = strip_prefix(line, &evfile_key) {
                self.evfile = string_of(&trim(&rest));
            } else if let Some(rest) = strip_prefix(line, &args_key) {
                match parse_args_tag(string_of(&rest).as_str()) {
                    Ok(args) => {
                        self.args = args;
                    },
                    Err(words) => {
                        return Err(words);
                    },
                }
            }
            i += 1;
        }
        proof {
            assert(all.take(all.len() as int) =~= all);
        }
        Ok(())
    }

    /// The runner that the configuration file at `path` describes, given
    /// what reading that file gave. An empty path stands for no file: the
    /// built-in configuration is returned and `file` is not looked at.
    pub fn from_config(path: &str, file: &Result<String, String>) -> (r: Result<
        RuversiRunner,
        String,
    >)
        ensures
            match r {
                Ok(rr) => if path@.len() == 0 {
                    rr@ == default_runner()
                } else {
                    read_effect(default_runner(), file_view(*file)) == (rr@, None::<Seq<char>>)
                },
                Err(words) => path@.len() > 0 && read_effect(
                    default_runner(),
                    file_view(*file),
                ).1 == Some(words@),
            },
    {
        let mut rr = RuversiRunner::new();
        if path.is_empty() {
            return Ok(rr);
        }
        match rr.read(file) {
            Ok(_) => Ok(rr),
            Err(words) => Err(words),
        }
    }
}

/// The words that describe the configuration `v`.
pub open spec fn description(v: RunnerView) -> Seq<char> {
    "curdir:"@ + v.curdir + ", ruversi:"@ + v.path + ", evfile:"@ + v.evfile + ", args:"@
        + list_debug_text(v.args)
}

/// A command line: the directory to run in, the program, and its arguments.
pub struct Invocation {
    pub curdir: String,
    pub program: String,
    pub args: Vec<String>,
}

/// The mathematical value of an `Invocation`.
pub ghost struct InvocationView {
    pub curdir: Seq<char>,
    pub program: Seq<char>,
    pub args: Seq<Seq<char>>,
}

impl View for Invocation {
    type V = InvocationView;

    open spec fn view(&self) -> InvocationView {
        InvocationView { curdir: self.curdir@, program: self.program@, args: texts(self.args@) }
    }
}

/// The search depth for a position with `empties` empty cells: twice their
/// number, so that plies in which a side must pass are covered.
pub open spec fn depth_for(empties: u32) -> int {
    2 * empties
}

/// The search depth for a position with `empties` empty cells.
pub fn search_depth(empties: u32) -> (depth: u64)
    ensures
        depth == depth_for(empties),
{
    2 * (empties as u64)
}

/// The words that report a working directory that could not be entered, for
/// the reason `reason`, under the configuration `v`.
pub open spec fn directory_failure_text(v: RunnerView, reason: Seq<char>) -> Seq<char> {
    "error entering the working directory... ["@ + reason + "], config:["@ + description(v)
        + "]"@
}

/// The words that report a solver that could not be started, for the reason
/// `reason`, under the configuration `v`.
pub open spec fn spawn_failure_text(v: RunnerView, reason: Seq<char>) -> Seq<char> {
    "error running ruversi... ["@ + reason + "], config:["@ + description(v) + "]"@
}

impl RuversiRunner {
    /// Describes the configuration in words.
    pub fn to_string(&self) -> (r: String)
        ensures
            r@ == description(self@),
    {
        let mut out = chars_of("curdir:");
        let curdir = chars_of(self.curdir.as_str());
        extend(&mut out, &curdir);
        let a = chars_of(", ruversi:");
        extend(&mut out, &a);
        let path = chars_of(self.path.as_str());
        extend(&mut out, &path);
        let b = chars_of(", evfile:");
        extend(&mut out, &b);
        let evfile = chars_of(self.evfile.as_str());
        extend(&mut out, &evfile);
        let c = chars_of(", args:");
        extend(&mut out, &c);
        let list = chars_of(debug_list(&self.args).as_str());
        extend(&mut out, &list);
        string_of(&out)
    }

    /// The extra arguments, copied behind `front`.
    fn with_extra_args(&self, front: Vec<String>) -> (r: Vec<String>)
        ensures
            texts(r@) == texts(front@) + self@.args,
    {
        let mut out = front;
        let mut i: usize = 0;
        proof {
            assert(texts(out@) =~= texts(front@) + self@.args.take(0));
        }
        while i < self.args.len()
            invariant
                i <= self.args.len(),
                texts(out@) == texts(front@) + self@.args.take(i as int),
            decreases self.args.len() - i,
        {
            let ghost before = out@;
            out.push(self.args[i].clone());
            proof {
                assert(texts(out@) =~= texts(before).push(self.args@[i as int]@));
                assert(self@.args.take(i + 1) =~= self@.args.take(i as int).push(
                    self.args@[i as int]@,
                ));
                assert(texts(out@) =~= texts(front@) + self@.args.take(i + 1));
            }
            i += 1;
        }
        proof {
            assert(self@.args.take(self.args.len() as int) =~= self@.args);
        }
        out
    }

    /// The command line that asks the solver for its move in the position
    /// `rfen`.
    pub fn spawn(&self, rfen: &str) -> (r: Invocation)
        ensures
            r@ == (InvocationView {
                curdir: self@.curdir,
                program: self@.path,
                args: seq!["--rfen"@, rfen@, "--ev1"@, self@.evfile] + self@.args,
            }),
    {
        let mut front: Vec<String> = Vec::new();
        front.push("--rfen".to_owned());
        front.push(rfen.to_owned());
        front.push("--ev1".to_owned());
        front.push(self.evfile.clone());
        proof {
            assert(texts(front@) =~= seq!["--rfen"@, rfen@, "--ev1"@, self@.evfile]);
        }
        Invocation {
            curdir: self.curdir.clone(),
            program: self.path.clone(),
            args: self.with_extra_args(front),
        }
    }

    /// The command line that asks the solver for every successor of the
    /// position `rfen`, searched to `depth`.
    pub fn spawn_children(&self, rfen: &str, depth: u64) -> (r: Invocation)
        ensures
            r@ == (InvocationView {
                curdir: self@.curdir,
                program: self@.path,
                args: seq![
                    "--rfen"@,
                    rfen@,
                    "--ev1"@,
                    self@.evfile,
                    "--children"@,
                    "--depth"@,
                    decimal(depth as nat),
                ] + self@.args,
            }),
    {
        let mut digits: Vec<char> = Vec::new();
        push_decimal(&mut digits, depth);
        proof {
            assert(digits@ =~= decimal(depth as nat));
        }
        let mut front: Vec<String> = Vec::new();
        front.push("--rfen".to_owned());
        front.push(rfen.to_owned());
        front.push("--ev1".to_owned());
        front.push(self.evfile.clone());
        front.push("--children".to_owned());
        front.push("--depth".to_owned());
        front.push(string_of(&digits));
        proof {
            assert(texts(front@) =~= seq![
                "--rfen"@,
                rfen@,
                "--ev1"@,
                self@.evfile,
                "--children"@,
                "--depth"@,
                decimal(depth as nat),
            ]);
        }
        Invocation {
            curdir: self.curdir.clone(),
            program: self.path.clone(),
            args: self.with_extra_args(front),
        }
    }

    /// The words that report that the working directory could not be
    /// entered, for the reason `reason`.
    pub fn directory_failure(&self, reason: &str) -> (r: String)
        ensures
            r@ == directory_failure_text(self@, reason@),
    {
        let mut out = chars_of("error entering the working directory... [");
        let why = chars_of(reason);
        extend(&mut out, &why);
        let a = chars_of("], config:[");
        extend(&mut out, &a);
        let config = chars_of(self.to_string().as_str());
        extend(&mut out, &config);
        let b = chars_of("]");
        extend(&mut out, &b);
        string_of(&out)
    }

    /// The words that report that the solver could not be started, for the
    /// reason `reason`.
    pub fn spawn_failure(&self, reason: &str) -> (r: String)
        ensures
            r@ == spawn_failure_text(self@, reason@),
    {
        let mut out = chars_of("error running ruversi... [");
        let why = chars_of(reason);
        extend(&mut out, &why);
        let a = chars_of("], config:[");
        extend(&mut out, &a);
        let config = chars_of(self.to_string().as_str());
        extend(&mut out, &config);
        let b = chars_of("]");
        extend(&mut out, &b);
        string_of(&out)
    }
}

/// What the first match of the regular expression `pattern` in `text`
/// captures: the text of each capture group in the order of the opening
/// brackets, the whole match first, `None` for a group that took no part in
/// the match. `None` where `pattern` is no regular expression that can be
/// compiled, or matches nowhere in `text`.
pub uninterp spec fn regex_captures(pattern: Seq<char>, text: Seq<char>) -> Option<
    Seq<Option<Seq<char>>>,
>;

/// The views of the captured groups `s`.
pub open spec fn group_texts(s: Seq<Option<String>>) -> Seq<Option<Seq<char>>> {
    s.map_values(
        |g: Option<String>|
            match g {
                Some(t) => Some(t@),
                None => None,
            },
    )
}

/// Compiles `pattern` with `regex::Regex::new` and searches `text` with
/// `Regex::captures`, which returns the capture groups of the leftmost
/// match; the groups are listed as `Captures::iter` yields them, each with
/// the text of `Match::as_str`. The result depends on the two texts alone
/// and is the value named `regex_captures`.
#[verifier::external_body]
fn captures(pattern: &str, text: &str) -> (r: Option<Vec<Option<String>>>)
    ensures
        match r {
            Some(found) => regex_captures(pattern@, text@) == Some(group_texts(found@)),
            None => regex_captures(pattern@, text@) is None,
        },
{
    let re = regex::Regex::new(pattern).ok()?;
    let caps = re.captures(text)?;
    Some(caps.iter().map(|m| m.map(|m| m.as_str().to_string())).collect())
}

/// The pattern of a line that reports one successor: the word `val`, the
/// value, the position with the side to move, each followed by a comma.
pub open spec fn child_pattern() -> Seq<char> {
    "val,([-0-9.]+),([0-8A-Ha-h\\/]+ [bw]),"@
}

/// One successor as the solver reports it: the text of the position, side
/// to move included, and its score.
pub struct Child {
    pub position: String,
    pub score: i8,
}

/// The mathematical value of a `Child`.
pub ghost struct ChildView {
    pub position: Seq<char>,
    pub score: i8,
}

impl View for Child {
    type V = ChildView;

    open spec fn view(&self) -> ChildView {
        ChildView { position: self.position@, score: self.score }
    }
}

/// The values of the successors of `s`.
pub open spec fn child_views(s: Seq<Child>) -> Seq<ChildView> {
    s.map_values(|c: Child| c@)
}

/// The successor that the captured groups `found` of a line give: the second
/// group is the position, the first the value, which is cut off to an
/// integer. Groups that are missing, or a value that is no decimal value,
/// give none.
pub open spec fn child_from(found: Seq<Option<Seq<char>>>) -> Option<ChildView> {
    if found.len() >= 3 && found[1] is Some && found[2] is Some && truncated_value(
        found[1].unwrap(),
    ) is Some {
        Some(
            ChildView {
                position: found[2].unwrap(),
                score: truncated_value(found[1].unwrap()).unwrap() as i8,
            },
        )
    } else {
        None
    }
}

/// The successor that the line `line` reports, if it reports one.
pub open spec fn child_in(line: Seq<char>) -> Option<ChildView> {
    match regex_captures(child_pattern(), line) {
        Some(found) => child_from(found),
        None => None,
    }
}

/// The successors that `lines` report, in their order. Lines that report
/// none are passed over.
pub open spec fn children_in(lines: Seq<Seq<char>>) -> Seq<ChildView>
    decreases lines.len(),
{
    if lines.len() == 0 {
        Seq::<ChildView>::empty()
    } else {
        match child_in(lines.last()) {
            Some(child) => children_in(lines.drop_last()).push(child),
            None => children_in(lines.drop_last()),
        }
    }
}

/// The words that report an output of too few lines.
pub open spec fn short_output(lines: Seq<Seq<char>>) -> Seq<char> {
    "invalid input "@ + list_debug_text(lines)
}

/// Builds the successor from the captured groups of a line.
pub fn child_from_groups(found: &Vec<Option<String>>) -> (r: Option<Child>)
    ensures
        match r {
            Some(child) => child_from(group_texts(found@)) == Some(child@),
            None => child_from(group_texts(found@)) is None,
        },
{
    if found.len() < 3 {
        return None;
    }
    proof {
        assert(group_texts(found@)[1] == match found@[1] {
            Some(t) => Some(t@),
            None => None,
        });
        assert(group_texts(found@)[2] == match found@[2] {
            Some(t) => Some(t@),
            None => None,
        });
    }
    match (&found[1], &found[2]) {
        (Some(value), Some(position)) => {
            let digits = chars_of(value.as_str());
            match truncate_value(&digits) {
                Some(score) => Some(Child { position: position.clone(), score }),
                None => None,
            }
        },
        _ => None,
    }
}

/// Reads one line of the solver's output.
pub fn child_of_line(line: &str) -> (r: Option<Child>)
    ensures
        match r {
            Some(child) => child_in(line@) == Some(child@),
            None => child_in(line@) is None,
        },
{
    match captures("val,([-0-9.]+),([0-8A-Ha-h\\/]+ [bw]),", line) {
        Some(found) => child_from_groups(&found),
        None => None,
    }
}

/// The words for the lines `all`: a short output is reported with them.
fn report_short_output(all: &Vec<Vec<char>>) -> (r: String)
    ensures
        r@ == short_output(rows(all@)),
{
    let mut words = chars_of("invalid input ");
    let list = chars_of(debug_list(&strings_of(all)).as_str());
    extend(&mut words, &list);
    string_of(&words)
}

/// The words that report an expansion that gives no successor, under the
/// configuration `v`.
pub open spec fn no_children(v: RunnerView) -> Seq<char> {
    "no children from ruversi, config:["@ + description(v) + "]"@
}

/// What the solver's output `output` gives under the configuration `v`. An
/// output of fewer than 10 lines is a failure, reported with its lines. An
/// output in which no line reports a successor is a failure of its own,
/// reported with the configuration. Any other output gives the successors
/// that its lines report, in their order.
pub open spec fn children_read(v: RunnerView, output: Seq<char>) -> Result<
    Seq<ChildView>,
    Seq<char>,
> {
    let lines = lines_of(output);
    if lines.len() < 10 {
        Err(short_output(lines))
    } else if children_in(lines).len() == 0 {
        Err(no_children(v))
    } else {
        Ok(children_in(lines))
    }
}

impl RuversiRunner {
    /// The words that report an expansion without a successor.
    fn report_no_children(&self) -> (r: String)
        ensures
            r@ == no_children(self@),
    {
        let mut words = chars_of("no children from ruversi, config:[");
        let config = chars_of(self.to_string().as_str());
        extend(&mut words, &config);
        let close = chars_of("]");
        extend(&mut words, &close);
        string_of(&words)
    }

    /// Reads what the solver printed when asked for the successors of a
    /// position. An output of fewer than 10 lines is an error, and so is an
    /// output in which no line reports a successor. Every line that reports
    /// a successor gives one; the other lines are passed over.
    pub fn run_children(&self, output: &str) -> (r: Result<Vec<Child>, String>)
        ensures
            match r {
                Ok(children) => children_read(self@, output@) == Ok::<Seq<ChildView>, Seq<char>>(
                    child_views(children@),
                ),
                Err(words) => children_read(self@, output@) == Err::<Seq<ChildView>, Seq<char>>(
                    words@,
                ),
            },
    {
        let text = chars_of(output);
        let all = lines(&text);
        if all.len() < 10 {
            return Err(report_short_output(&all));
        }
        let ghost rest = rows(all@);
        let mut children: Vec<Child> = Vec::new();
        let mut i: usize = 0;
        proof {
            assert(child_views(children@) =~= children_in(rest.take(0)));
        }
        while i < all.len()
            invariant
                i <= all.len(),
                rest == rows(all@),
                child_views(children@) == children_in(rest.take(i as int)),
            decreases all.len() - i,
        {
            let line = string_of(&all[i]);
            proof {
                assert(rest.take(i + 1).drop_last() =~= rest.take(i as int));
                assert(rest.take(i + 1).last() == line@);
            }
            match child_of_line(line.as_str()) {
                Some(child) => {
                    let ghost before = children@;
                    children.push(child);
                    proof {
                        assert(child_views(children@) =~= child_views(before).push(child@));
                    }
                },
                None => {},
            }
            i += 1;
        }
        proof {
            assert(rest.take(all.len() as int) =~= rest);
            assert(child_views(children@).len() == children@.len());
        }
        if children.len() == 0 {
            return Err(self.report_no_children());
        }
        Ok(children)
    }
}

/// A successor that the solver reported, after the board collaborator has
/// read its position text: the position, or `None` where the text is no
/// position, and the score.
pub struct Decoded {
    pub position: Option<Position>,
    pub score: i8,
}

/// The mathematical value of a `Decoded`.
pub ghost struct DecodedView {
    pub position: Option<PositionView>,
    pub score: i8,
}

impl View for Decoded {
    type V = DecodedView;

    open spec fn view(&self) -> DecodedView {
        DecodedView {
            position: match self.position {
                Some(p) => Some(p@),
                None => None,
            },
            score: self.score,
        }
    }
}

/// The values of the successors of `s`.
pub open spec fn decoded_views(s: Seq<Decoded>) -> Seq<DecodedView> {
    s.map_values(|d: Decoded| d@)
}

/// The record of a solved successor: the settled stones are not known after
/// the expansion and are written as zero.
pub open spec fn solved_record(position: PositionView, score: i8) -> RecordView {
    RecordView { position, fixed_black: 0, fixed_white: 0, score }
}

/// The records of the successors whose text is a position, in their order.
pub open spec fn solved(s: Seq<DecodedView>) -> Seq<RecordView>
    decreases s.len(),
{
    if s.len() == 0 {
        Seq::<RecordView>::empty()
    } else {
        match s.last().position {
            Some(p) => solved(s.drop_last()).push(solved_record(p, s.last().score)),
            None => solved(s.drop_last()),
        }
    }
}

/// What the successors `s` of one position give under the configuration
/// `v`: their records, or the failure of an expansion that leaves nothing
/// where no successor's text is a position.
pub open spec fn solved_or_failed(v: RunnerView, s: Seq<DecodedView>) -> Result<
    Seq<RecordView>,
    Seq<char>,
> {
    if solved(s).len() == 0 {
        Err(no_children(v))
    } else {
        Ok(solved(s))
    }
}

impl RuversiRunner {
    /// Turns the successors of one position into records. A successor whose
    /// text is no position is dropped; an expansion of which nothing is left
    /// is an error, reported with the configuration.
    pub fn solved_records(&self, children: &Vec<Decoded>) -> (r: Result<Vec<Record>, String>)
        ensures
            match r {
                Ok(records) => solved_or_failed(self@, decoded_views(children@)) == Ok::<
                    Seq<RecordView>,
                    Seq<char>,
                >(views(records@)),
                Err(words) => solved_or_failed(self@, decoded_views(children@)) == Err::<
                    Seq<RecordView>,
                    Seq<char>,
                >(words@),
            },
    {
        let mut out: Vec<Record> = Vec::new();
        let ghost all = decoded_views(children@);
        let mut i: usize = 0;
        proof {
            assert(views(out@) =~= solved(all.take(0)));
        }
        while i < children.len()
            invariant
                i <= children.len(),
                all == decoded_views(children@),
                views(out@) == solved(all.take(i as int)),
            decreases children.len() - i,
        {
            let child = &children[i];
            proof {
                assert(all.take(i + 1).drop_last() =~= all.take(i as int));
                assert(all.take(i + 1).last() == child@);
            }
            match &child.position {
                Some(p) => {
                    let ghost before = out@;
                    let record = Record::new(p.copy(), 0, 0, child.score);
                    out.push(record);
                    proof {
                        assert(views(out@) =~= views(before).push(record@));
                    }
                },
                None => {},
            }
            i += 1;
        }
        proof {
            assert(all.take(children.len() as int) =~= all);
            assert(views(out@).len() == out@.len());
        }
        if out.len() == 0 {
            return Err(self.report_no_children());
        }
        Ok(out)
    }
}

/// The pattern of the move in the solver's report: a square behind the word
/// `nodes.`.
pub open spec fn move_pattern() -> Seq<char> {
    "nodes\\. ([A-Ha-h][1-8])"@
}

/// The pattern of the value in the solver's report: a decimal value behind
/// `val:`, followed by a space.
pub open spec fn value_pattern() -> Seq<char> {
    "val:(-?\\d+\\.\\d+) "@
}

/// The text of the first capture group of `found`, if a match was found and
/// the group took part in it.
pub open spec fn first_group(found: Option<Seq<Option<Seq<char>>>>) -> Option<Seq<char>> {
    match found {
        Some(groups) => if groups.len() >= 2 {
            groups[1]
        } else {
            None
        },
        None => None,
    }
}

/// The words that report a line without a move.
pub open spec fn no_move(report: Seq<char>) -> Seq<char> {
    "invalid input from ruversi. \""@ + report + "\""@
}

/// The words that report a line without a value, behind the move `square`;
/// they quote the third line of the output, `third`.
pub open spec fn no_value(third: Seq<char>, square: Seq<char>) -> Seq<char> {
    "invalid input from ruversi. \""@ + third + "\" pos"@ + square
}

/// The solver's answer: the square it moves to, in lower case, and the value
/// as it is written. `found_move` and `found_value` are what the two
/// patterns capture in the report line `report`.
pub open spec fn answer_from(
    report: Seq<char>,
    third: Seq<char>,
    found_move: Option<Seq<Option<Seq<char>>>>,
    found_value: Option<Seq<Option<Seq<char>>>>,
) -> Result<(Seq<char>, Seq<char>), Seq<char>> {
    match first_group(found_move) {
        None => Err(no_move(report)),
        Some(square) => match first_group(found_value) {
            Some(value) => Ok((lowered(square), value)),
            None => Err(no_value(third, lowered(square))),
        },
    }
}

/// The text of the first capture group of `found`.
fn first_of(found: &Option<Vec<Option<String>>>) -> (r: Option<String>)
    ensures
        match r {
            Some(t) => first_group(
                match *found {
                    Some(groups) => Some(group_texts(groups@)),
                    None => None,
                },
            ) == Some(t@),
            None => first_group(
                match *found {
                    Some(groups) => Some(group_texts(groups@)),
                    None => None,
                },
            ) is None,
        },
{
    match found {
        Some(groups) => {
            if groups.len() >= 2 {
                proof {
                    assert(group_texts(groups@)[1] == match groups@[1] {
                        Some(t) => Some(t@),
                        None => None,
                    });
                }
                match &groups[1] {
                    Some(t) => Some(t.clone()),
                    None => None,
                }
            } else {
                None
            }
        },
        None => None,
    }
}

/// The views of what a pattern captured.
pub open spec fn found_texts(found: Option<Vec<Option<String>>>) -> Option<
    Seq<Option<Seq<char>>>,
> {
    match found {
        Some(groups) => Some(group_texts(groups@)),
        None => None,
    }
}

/// Builds the solver's answer from what the two patterns captured in the
/// report line `report`; `third` is the third line of the output.
pub fn answer_from_groups(
    report: &str,
    third: &str,
    found_move: &Option<Vec<Option<String>>>,
    found_value: &Option<Vec<Option<String>>>,
) -> (r: Result<(String, String), String>)
    ensures
        match r {
            Ok(answer) => answer_from(
                report@,
                third@,
                found_texts(*found_move),
                found_texts(*found_value),
            ) == Ok::<(Seq<char>, Seq<char>), Seq<char>>((answer.0@, answer.1@)),
            Err(words) => answer_from(
                report@,
                third@,
                found_texts(*found_move),
                found_texts(*found_value),
            ) == Err::<(Seq<char>, Seq<char>), Seq<char>>(words@),
        },
{
    match first_of(found_move) {
        None => {
            let mut words = chars_of("invalid input from ruversi. \"");
            let quoted = chars_of(report);
            extend(&mut words, &quoted);
            let close = chars_of("\"");
            extend(&mut words, &close);
            Err(string_of(&words))
        },
        Some(square) => {
            let low = to_ascii_lowercase(&chars_of(square.as_str()));
            match first_of(found_value) {
                Some(value) => Ok((string_of(&low), value)),
                None => {
                    let mut words = chars_of("invalid input from ruversi. \"");
                    let quoted = chars_of(third);
                    extend(&mut words, &quoted);
                    let close = chars_of("\" pos");
                    extend(&mut words, &close);
                    extend(&mut words, &low);
                    Err(string_of(&words))
                },
            }
        },
    }
}

/// What `run` returns for the lines `lines` of the solver's output: an
/// output of fewer than 13 lines is an error; the answer is read from the
/// thirteenth line, put in lower case.
pub open spec fn answer_in(lines: Seq<Seq<char>>) -> Result<(Seq<char>, Seq<char>), Seq<char>> {
    if lines.len() < 13 {
        Err(short_output(lines))
    } else {
        answer_from(
            lowered(lines[12]),
            lines[2],
            regex_captures(move_pattern(), lowered(lines[12])),
            regex_captures(value_pattern(), lowered(lines[12])),
        )
    }
}

/// The line of the output's lines `lines` that reports the move, in lower
/// case: the thirteenth, where there is one.
pub open spec fn report_in(lines: Seq<Seq<char>>) -> Option<Seq<char>> {
    if lines.len() < 13 {
        None
    } else {
        Some(lowered(lines[12]))
    }
}

impl RuversiRunner {
    /// The line of the solver's output that reports its move, in lower case.
    pub fn report_line(&self, output: &str) -> (r: Option<String>)
        ensures
            match r {
                Some(line) => report_in(split_on(output@, '\n')) == Some(line@),
                None => report_in(split_on(output@, '\n')) is None,
            },
    {
        let text = chars_of(output);
        let all = split(&text, '\n');
        if all.len() < 13 {
            return None;
        }
        proof {
            assert(rows(all@)[12] == all@[12]@);
        }
        Some(string_of(&to_ascii_lowercase(&all[12])))
    }

    /// Reads what the solver printed when asked for its move: the square and
    /// the value.
    pub fn run(&self, output: &str) -> (r: Result<(String, String), String>)
        ensures
            match r {
                Ok(answer) => answer_in(split_on(output@, '\n')) == Ok::<
                    (Seq<char>, Seq<char>),
                    Seq<char>,
                >((answer.0@, answer.1@)),
                Err(words) => answer_in(split_on(output@, '\n')) == Err::<
                    (Seq<char>, Seq<char>),
                    Seq<char>,
                >(words@),
            },
    {
        let text = chars_of(output);
        let all = split(&text, '\n');
        if all.len() < 13 {
            return Err(report_short_output(&all));
        }
        proof {
            assert(rows(all@)[12] == all@[12]@);
            assert(rows(all@)[2] == all@[2]@);
        }
        let report = string_of(&to_ascii_lowercase(&all[12]));
        let third = string_of(&all[2]);
        let found_move = captures("nodes\\. ([A-Ha-h][1-8])", report.as_str());
        let found_value = captures("val:(-?\\d+\\.\\d+) ", report.as_str());
        answer_from_groups(report.as_str(), third.as_str(), &found_move, &found_value)
    }
}

} // verus!
