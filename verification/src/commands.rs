//! Custom commands and skills: markdown files that a slash command expands to
//! and that a mention of a skill is replaced by.

use vstd::prelude::*;
use crate::skill_trust::{self, hash_skill_contents, ConsentOutcome, SkillConsentRequest, SkillScope};
use crate::text::{
    self, chars_of, decimal_of, find_at, is_digit, lines_of, path_join, split_first_word,
    split_once_at, string_of_range, text_eq, trimmed, trimmed_end_char, trimmed_start,
    without_ending, without_prefix, words_of,
};
use crate::text_map::TextMap;

verus! {

/// A command: a prompt template and what its file says about it.
#[derive(Debug)]
pub struct CustomCommand {
    pub template: String,
    pub description: Option<String>,
    pub argument_hint: Option<String>,
    pub agent: Option<String>,
}

/// A command, as mathematical values.
pub struct CommandModel {
    pub template: Seq<char>,
    pub description: Option<Seq<char>>,
    pub argument_hint: Option<Seq<char>>,
    pub agent: Option<Seq<char>>,
}

impl View for CustomCommand {
    type V = CommandModel;

    open spec fn view(&self) -> CommandModel {
        CommandModel {
            template: self.template@,
            description: text::opt_text(self.description),
            argument_hint: text::opt_text(self.argument_hint),
            agent: text::opt_text(self.agent),
        }
    }
}

/// A skill: the raw contents of its file, and the command it runs if it is an
/// executable one.
#[derive(Debug)]
pub struct Skill {
    pub path: String,
    pub contents: String,
    pub run: Option<String>,
    pub scope: SkillScope,
}

/// A skill, as mathematical values.
pub struct SkillModel {
    pub path: Seq<char>,
    pub contents: Seq<char>,
    pub run: Option<Seq<char>>,
    pub scope: SkillScope,
}

impl View for Skill {
    type V = SkillModel;

    open spec fn view(&self) -> SkillModel {
        SkillModel {
            path: self.path@,
            contents: self.contents@,
            run: text::opt_text(self.run),
            scope: self.scope,
        }
    }
}

/// A file of a directory: its name, and its contents where they could be read.
#[derive(Debug)]
pub struct DirFile {
    pub name: String,
    pub contents: Option<String>,
}

// ---------------------------------------------------------------------------
// Files
// ---------------------------------------------------------------------------

/// The name of a markdown file without its extension; nothing for any other
/// file.
pub open spec fn md_stem(name: Seq<char>) -> Option<Seq<char>> {
    text::strip_ending(name, ".md"@)
}

/// The front matter of a file and what follows it: the file opens with a line
/// of three dashes, and the next line that begins with three dashes ends it.
pub open spec fn front_matter(contents: Seq<char>) -> Option<(Seq<char>, Seq<char>)> {
    match text::strip_prefix(contents, "---\n"@) {
        None => None,
        Some(rest) => match text::find(rest, "\n---"@) {
            None => None,
            Some(end) => {
                let after = rest.skip(end + "\n---"@.len());
                let body = if after.len() > 0 && after[0] == '\n' {
                    after.skip(1)
                } else {
                    after
                };
                Some((rest.take(end), body))
            },
        },
    }
}

fn split_frontmatter(contents: &str) -> (r: Option<(String, String)>)
    ensures
        match r {
            Some((a, b)) => front_matter(contents@) == Some((a@, b@)),
            None => front_matter(contents@) is None,
        },
{
    match without_prefix(contents, "---\n") {
        None => None,
        Some(rest) => {
            let v = chars_of(rest.as_str());
            let mark = chars_of("\n---");
            match find_at(&v, &mark, 0) {
                None => None,
                Some(end) => {
                    let from: usize = end + mark.len();
                    let start: usize = if from < v.len() && v[from] == '\n' {
                        from + 1
                    } else {
                        from
                    };
                    let a = string_of_range(&v, 0, end);
                    let b = string_of_range(&v, start, v.len());
                    proof {
                        let after = rest@.skip(from as int);
                        assert(a@ =~= rest@.take(end as int));
                        if from < v.len() {
                            assert(after[0] == v@[from as int]);
                        }
                        if start == from {
                            assert(b@ =~= after);
                        } else {
                            assert(b@ =~= after.skip(1));
                        }
                    }
                    Some((a, b))
                },
            }
        },
    }
}

/// The key and the value of a line, without the white space around them.
pub open spec fn key_value(line: Seq<char>) -> Option<(Seq<char>, Seq<char>)> {
    match text::split_once(line, ':') {
        Some((k, v)) => Some((text::trim(k), text::trim(v))),
        None => None,
    }
}

/// The last value under `key`.
pub open spec fn last_value(lines: Seq<Seq<char>>, key: Seq<char>) -> Option<Seq<char>>
    decreases lines.len(),
{
    if lines.len() == 0 {
        None
    } else {
        match key_value(lines.last()) {
            Some((k, v)) => if k == key {
                Some(v)
            } else {
                last_value(lines.drop_last(), key)
            },
            None => last_value(lines.drop_last(), key),
        }
    }
}

/// The first value under `key`.
pub open spec fn first_value(lines: Seq<Seq<char>>, key: Seq<char>) -> Option<Seq<char>>
    decreases lines.len(),
{
    if lines.len() == 0 {
        None
    } else {
        match key_value(lines[0]) {
            Some((k, v)) => if k == key {
                Some(v)
            } else {
                first_value(lines.skip(1), key)
            },
            None => first_value(lines.skip(1), key),
        }
    }
}

/// What a command file says: without front matter it is all template.
pub open spec fn command_of(contents: Seq<char>) -> CommandModel {
    match front_matter(contents) {
        None => CommandModel {
            template: contents,
            description: None,
            argument_hint: None,
            agent: None,
        },
        Some((front, body)) => CommandModel {
            template: body,
            description: last_value(text::lines(front), "description"@),
            argument_hint: last_value(text::lines(front), "argument-hint"@),
            agent: last_value(text::lines(front), "agent"@),
        },
    }
}

/// The command that a skill file runs, if any: the first `run` value, unless
/// it is empty.
pub open spec fn run_of(contents: Seq<char>) -> Option<Seq<char>> {
    match front_matter(contents) {
        None => None,
        Some((front, _)) => match first_value(text::lines(front), "run"@) {
            Some(v) => if v.len() == 0 {
                None
            } else {
                Some(v)
            },
            None => None,
        },
    }
}

fn key_value_of(line: &str) -> (r: Option<(String, String)>)
    ensures
        match r {
            Some((k, v)) => key_value(line@) == Some((k@, v@)),
            None => key_value(line@) is None,
        },
{
    match split_once_at(line, ':') {
        Some((k, v)) => Some((trimmed(k.as_str()), trimmed(v.as_str()))),
        None => None,
    }
}

/// Reads a command file. Unknown keys, and lines without a colon, are passed
/// over.
pub fn parse_command_file(contents: &str) -> (r: CustomCommand)
    ensures
        r@ == command_of(contents@),
{
    let (front, body) = match split_frontmatter(contents) {
        None => {
            return CustomCommand {
                template: contents.to_owned(),
                description: None,
                argument_hint: None,
                agent: None,
            };
        },
        Some(parts) => parts,
    };
    let rows = lines_of(front.as_str());
    let ghost all = text::lines(front@);
    let mut description: Option<String> = None;
    let mut argument_hint: Option<String> = None;
    let mut agent: Option<String> = None;
    proof {
        reveal_strlit("description");
        reveal_strlit("argument-hint");
        reveal_strlit("agent");
        assert("description"@.len() == 11);
        assert("argument-hint"@.len() == 13);
        assert("agent"@.len() == 5);
    }
    let mut i: usize = 0;
    while i < rows.len()
        invariant
            i <= rows.len(),
            all == text::texts(rows@),
            "description"@ != "argument-hint"@,
            "description"@ != "agent"@,
            "argument-hint"@ != "agent"@,
            text::opt_text(description) == last_value(all.take(i as int), "description"@),
            text::opt_text(argument_hint) == last_value(all.take(i as int), "argument-hint"@),
            text::opt_text(agent) == last_value(all.take(i as int), "agent"@),
        decreases rows.len() - i,
    {
        proof {
            assert(all.take(i + 1).drop_last() =~= all.take(i as int));
            assert(all.take(i + 1).last() == rows@[i as int]@);
        }
        match key_value_of(rows[i].as_str()) {
            None => {},
            Some((key, value)) => {
                if text_eq(key.as_str(), "description") {
                    description = Some(value);
                } else if text_eq(key.as_str(), "argument-hint") {
                    argument_hint = Some(value);
                } else if text_eq(key.as_str(), "agent") {
                    agent = Some(value);
                }
            },
        }
        i += 1;
    }
    assert(all.take(all.len() as int) =~= all);
    CustomCommand { template: body, description, argument_hint, agent }
}

/// Reads the `run` field of a skill file. An empty one counts as absent.
pub fn parse_skill_run_field(contents: &str) -> (r: Option<String>)
    ensures
        text::opt_text(r) == run_of(contents@),
{
    let (front, _body) = match split_frontmatter(contents) {
        None => {
            return None;
        },
        Some(parts) => parts,
    };
    let rows = lines_of(front.as_str());
    let ghost all = text::lines(front@);
    let mut i: usize = 0;
    assert(all.skip(0) =~= all);
    while i < rows.len()
        invariant
            i <= rows.len(),
            all == text::texts(rows@),
            front_matter(contents@) is Some,
            all == text::lines((front_matter(contents@)->0).0),
            first_value(all, "run"@) == first_value(all.skip(i as int), "run"@),
        decreases rows.len() - i,
    {
        proof {
            assert(all.skip(i as int)[0] == rows@[i as int]@);
            assert(all.skip(i as int).skip(1) =~= all.skip(i + 1));
        }
        match key_value_of(rows[i].as_str()) {
            None => {},
            Some((key, value)) => {
                if text_eq(key.as_str(), "run") {
                    return if value.as_str().is_empty() {
                        None
                    } else {
                        Some(value)
                    };
                }
            },
        }
        i += 1;
    }
    None
}

// ---------------------------------------------------------------------------
// Templates
// ---------------------------------------------------------------------------

/// The placeholder of the `n`-th argument.
pub open spec fn placeholder(n: nat) -> Seq<char> {
    seq!['$'] + text::decimal(n)
}

/// How many digits stand at the head of `s`.
pub open spec fn digit_run(s: Seq<char>) -> nat
    decreases s.len(),
{
    if s.len() == 0 || !text::ascii_digit(s[0]) {
        0
    } else {
        1 + digit_run(s.skip(1))
    }
}

/// Which of the first `n` arguments a run of digits names; zero where it names
/// none of them.
pub open spec fn named_argument(run: Seq<char>, n: nat) -> nat
    decreases n,
{
    if n == 0 {
        0
    } else if text::decimal(n) == run {
        n
    } else {
        named_argument(run, (n - 1) as nat)
    }
}

/// Whether `s` begins with a placeholder that names none of `n` arguments. A
/// placeholder is `$` with the whole run of digits behind it.
pub open spec fn stays(s: Seq<char>, n: nat) -> bool {
    &&& s.len() > 0
    &&& s[0] == '$'
    &&& digit_run(s.skip(1)) > 0
    &&& named_argument(s.skip(1).take(digit_run(s.skip(1)) as int), n) == 0
}

/// A character of a template that is being filled.
#[derive(Debug, Clone, Copy)]
pub enum Glyph<C> {
    Open(C),
    /// The dollar sign of a placeholder that names no argument. It is shown in
    /// the end, and until then no placeholder begins with it.
    Kept,
}

/// A text that is to be filled with `n` arguments.
pub open spec fn glyphs(s: Seq<char>, n: nat) -> Seq<Glyph<char>> {
    Seq::new(
        s.len(),
        |i: int|
            if stays(s.skip(i), n) {
                Glyph::Kept
            } else {
                Glyph::Open(s[i])
            },
    )
}

/// A text in which nothing is kept.
pub open spec fn plain(s: Seq<char>) -> Seq<Glyph<char>> {
    s.map_values(|c: char| Glyph::Open(c))
}

/// A character as it is shown in the end.
pub open spec fn shown_char(g: Glyph<char>) -> char {
    match g {
        Glyph::Open(c) => c,
        Glyph::Kept => '$',
    }
}

/// A filled template as it is shown in the end.
pub open spec fn shown(g: Seq<Glyph<char>>) -> Seq<char> {
    g.map_values(|x: Glyph<char>| shown_char(x))
}

/// Whether `g` begins with `mark`.
pub open spec fn begins(g: Seq<Glyph<char>>, mark: Seq<Glyph<char>>) -> bool {
    mark.len() <= g.len() && g.take(mark.len() as int) == mark
}

/// `g` with every occurrence of `mark` replaced by `value`, found from the left
/// and never overlapping.
pub open spec fn swap(g: Seq<Glyph<char>>, mark: Seq<Glyph<char>>, value: Seq<Glyph<char>>) -> Seq<Glyph<char>>
    decreases g.len(),
{
    if g.len() == 0 || mark.len() == 0 {
        g
    } else if begins(g, mark) {
        value + swap(g.skip(mark.len() as int), mark, value)
    } else {
        seq![g[0]] + swap(g.skip(1), mark, value)
    }
}

/// `g` with the placeholders of the first `n` arguments replaced, from the
/// highest to the lowest, each in what the ones before it have left.
pub open spec fn fill_positional(
    g: Seq<Glyph<char>>,
    arguments: Seq<Seq<char>>,
    n: nat,
) -> Seq<Glyph<char>>
    decreases n,
{
    if n == 0 {
        g
    } else {
        fill_positional(
            swap(g, plain(placeholder(n)), glyphs(arguments[n - 1], arguments.len())),
            arguments,
            (n - 1) as nat,
        )
    }
}

/// `template` with `$ARGUMENTS` replaced by all arguments, then `$1`, `$2` and
/// so on by the single ones, the highest first. A placeholder that names no
/// argument stays as it is written.
pub open spec fn fill(template: Seq<char>, args: Seq<char>) -> Seq<char> {
    let ws = text::words(args);
    shown(
        fill_positional(
            swap(glyphs(template, ws.len()), plain("$ARGUMENTS"@), glyphs(args, ws.len())),
            ws,
            ws.len(),
        ),
    )
}

/// The digits at the head of `s` are a prefix of it that no digit follows.
proof fn lemma_digit_run(s: Seq<char>)
    ensures
        digit_run(s) <= s.len(),
        text::all_digits(s.take(digit_run(s) as int)),
        digit_run(s) < s.len() ==> !text::ascii_digit(s[digit_run(s) as int]),
    decreases s.len(),
{
    if s.len() > 0 && text::ascii_digit(s[0]) {
        let t = s.skip(1);
        lemma_digit_run(t);
        let n = digit_run(t);
        assert forall|i: int| 0 <= i < n + 1 implies text::ascii_digit(
            #[trigger] s.take((n + 1) as int)[i],
        ) by {
            if i > 0 {
                assert(t.take(n as int)[i - 1] == s[i]);
            }
        }
    }
}

/// A run of digits names one of the first `n` arguments or none.
proof fn lemma_named_argument(run: Seq<char>, n: nat)
    ensures
        named_argument(run, n) <= n,
        named_argument(run, n) > 0 ==> text::decimal(named_argument(run, n)) == run,
        forall|k: nat| 0 < k <= n && #[trigger] text::decimal(k) == run ==> named_argument(run, n)
            == k,
    decreases n,
{
    if n > 0 {
        lemma_named_argument(run, (n - 1) as nat);
        assert forall|k: nat| 0 < k <= n && #[trigger] text::decimal(k) == run implies
            named_argument(run, n) == k by {
            if text::decimal(n) == run {
                text::lemma_decimal(n);
                text::lemma_decimal(k);
            }
        }
    }
}

/// What follows a text that is to be filled changes nothing in it, unless it
/// goes on with digits.
proof fn lemma_digit_run_stops(x: Seq<char>, y: Seq<char>)
    requires
        y.len() > 0 ==> !text::ascii_digit(y[0]),
    ensures
        digit_run(x + y) == digit_run(x),
    decreases x.len(),
{
    if x.len() > 0 {
        assert((x + y)[0] == x[0]);
        if text::ascii_digit(x[0]) {
            assert((x + y).skip(1) =~= x.skip(1) + y);
            lemma_digit_run_stops(x.skip(1), y);
        }
    } else {
        assert(x + y =~= y);
    }
}

/// A text and one behind it that does not go on with digits are read apart.
proof fn lemma_glyphs_split(x: Seq<char>, y: Seq<char>, n: nat)
    requires
        y.len() > 0 ==> !text::ascii_digit(y[0]),
    ensures
        glyphs(x + y, n) == glyphs(x, n) + glyphs(y, n),
{
    let s = x + y;
    assert forall|i: int| 0 <= i < s.len() implies #[trigger] glyphs(s, n)[i] == (glyphs(x, n)
        + glyphs(y, n))[i] by {
        if i < x.len() {
            let t = x.skip(i);
            assert(s.skip(i) =~= t + y);
            assert(s.skip(i).skip(1) =~= t.skip(1) + y);
            lemma_digit_run_stops(t.skip(1), y);
            lemma_digit_run(t.skip(1));
            let d = digit_run(t.skip(1)) as int;
            assert((t.skip(1) + y).take(d) =~= t.skip(1).take(d));
        } else {
            assert(s.skip(i) =~= y.skip(i - x.len()));
        }
    }
    assert(glyphs(s, n) =~= glyphs(x, n) + glyphs(y, n));
}

/// A run of digits is all there is to it.
proof fn lemma_digit_run_whole(run: Seq<char>)
    requires
        text::all_digits(run),
    ensures
        digit_run(run) == run.len(),
    decreases run.len(),
{
    if run.len() > 0 {
        assert forall|i: int| 0 <= i < run.len() - 1 implies text::ascii_digit(
            #[trigger] run.skip(1)[i],
        ) by {
            assert(run[i + 1] == run.skip(1)[i]);
        }
        lemma_digit_run_whole(run.skip(1));
        assert(text::ascii_digit(run[0]));
    }
}

/// A placeholder by itself: its dollar sign is kept just where it names no
/// argument.
proof fn lemma_glyphs_of_placeholder(run: Seq<char>, n: nat)
    requires
        run.len() > 0,
        text::all_digits(run),
    ensures
        glyphs(seq!['$'] + run, n) == seq![
            if named_argument(run, n) == 0 {
                Glyph::Kept
            } else {
                Glyph::Open('$')
            },
        ] + plain(run),
{
    let s = seq!['$'] + run;
    let g = seq![
        if named_argument(run, n) == 0 {
            Glyph::Kept
        } else {
            Glyph::Open('$')
        },
    ] + plain(run);
    assert forall|i: int| 0 <= i < s.len() implies #[trigger] glyphs(s, n)[i] == g[i] by {
        if i == 0 {
            assert(s.skip(0) =~= s);
            assert(s.skip(1) =~= run);
            lemma_digit_run_whole(run);
            assert(run.take(run.len() as int) =~= run);
        } else {
            assert(s.skip(i)[0] == run[i - 1] && text::ascii_digit(run[i - 1]));
        }
    }
    assert(glyphs(s, n) =~= g);
}

/// In a text without a dollar sign nothing is kept.
proof fn lemma_glyphs_plain(s: Seq<char>, n: nat)
    requires
        !s.contains('$'),
    ensures
        glyphs(s, n) == plain(s),
{
    assert forall|i: int| 0 <= i < s.len() implies #[trigger] glyphs(s, n)[i] == plain(s)[i] by {
        assert(s.contains(s[i]));
        assert(s.skip(i)[0] == s[i]);
    }
    assert(glyphs(s, n) =~= plain(s));
}

/// What cannot begin an occurrence is passed over.
proof fn lemma_swap_passes(
    x: Seq<Glyph<char>>,
    y: Seq<Glyph<char>>,
    mark: Seq<Glyph<char>>,
    value: Seq<Glyph<char>>,
)
    requires
        mark.len() > 0,
        forall|i: int| 0 <= i < x.len() ==> #[trigger] x[i] != mark[0],
    ensures
        swap(x + y, mark, value) == x + swap(y, mark, value),
    decreases x.len(),
{
    let g = x + y;
    if x.len() > 0 {
        assert(g[0] == x[0]);
        assert(g.len() >= mark.len() ==> g.take(mark.len() as int)[0] == x[0]);
        assert forall|i: int| 0 <= i < x.len() - 1 implies #[trigger] x.skip(1)[i] != mark[0] by {
            assert(x[i + 1] == x.skip(1)[i]);
        }
        assert(g.skip(1) =~= x.skip(1) + y);
        lemma_swap_passes(x.skip(1), y, mark, value);
        assert(seq![x[0]] + (x.skip(1) + swap(y, mark, value)) =~= x + swap(y, mark, value));
    } else {
        assert(g =~= y);
        assert(x + swap(y, mark, value) =~= swap(y, mark, value));
    }
}

/// Two texts are searched apart where no occurrence can reach from the first
/// into the second.
proof fn lemma_swap_splits(
    x: Seq<Glyph<char>>,
    y: Seq<Glyph<char>>,
    mark: Seq<Glyph<char>>,
    value: Seq<Glyph<char>>,
)
    requires
        mark.len() > 0,
        y.len() > 0 ==> forall|i: int| 0 < i < mark.len() ==> #[trigger] mark[i] != y[0],
    ensures
        swap(x + y, mark, value) == swap(x, mark, value) + swap(y, mark, value),
    decreases x.len(),
{
    let g = x + y;
    let m = mark.len() as int;
    if x.len() == 0 {
        assert(g =~= y);
        assert(swap(x, mark, value) + swap(y, mark, value) =~= swap(y, mark, value));
    } else if begins(g, mark) {
        if x.len() < m {
            let i = x.len() as int;
            assert(g.take(m)[i] == y[0]);
            assert(mark[i] == y[0]);
        } else {
            assert(x.take(m) =~= g.take(m));
            assert(g.skip(m) =~= x.skip(m) + y);
            lemma_swap_splits(x.skip(m), y, mark, value);
            assert(value + (swap(x.skip(m), mark, value) + swap(y, mark, value)) =~= (value + swap(
                x.skip(m),
                mark,
                value,
            )) + swap(y, mark, value));
        }
    } else {
        if begins(x, mark) {
            assert(x.take(m) =~= g.take(m));
        }
        assert(g.skip(1) =~= x.skip(1) + y);
        lemma_swap_splits(x.skip(1), y, mark, value);
        assert(seq![g[0]] + (swap(x.skip(1), mark, value) + swap(y, mark, value)) =~= (seq![x[0]]
            + swap(x.skip(1), mark, value)) + swap(y, mark, value));
    }
}

/// What a placeholder looks like: a dollar sign, then digits.
proof fn lemma_placeholder(n: nat)
    ensures
        plain(placeholder(n)).len() > 1,
        plain(placeholder(n))[0] == Glyph::Open('$'),
        forall|i: int|
            0 < i < plain(placeholder(n)).len() ==> ((#[trigger] plain(placeholder(n))[i])
                matches Glyph::Open(c) && text::ascii_digit(c)),
{
    text::lemma_decimal(n);
    let p = plain(placeholder(n));
    assert forall|i: int| 0 < i < p.len() implies ((#[trigger] p[i]) matches Glyph::Open(c)
        && text::ascii_digit(c)) by {
        assert(placeholder(n)[i] == text::decimal(n)[i - 1]);
    }
}

/// Around something that is kept, and the digits behind it, the placeholders
/// are replaced apart.
proof fn lemma_fill_around(
    x: Seq<Glyph<char>>,
    kept: Seq<Glyph<char>>,
    y: Seq<Glyph<char>>,
    arguments: Seq<Seq<char>>,
    n: nat,
)
    requires
        kept.len() > 0,
        kept[0] is Kept,
        forall|i: int| 0 <= i < kept.len() ==> #[trigger] kept[i] != Glyph::Open('$'),
    ensures
        fill_positional(x + kept + y, arguments, n) == fill_positional(x, arguments, n) + kept
            + fill_positional(y, arguments, n),
    decreases n,
{
    if n > 0 {
        let mark = plain(placeholder(n));
        let value = glyphs(arguments[n - 1], arguments.len());
        lemma_placeholder(n);
        assert(x + kept + y =~= x + (kept + y));
        assert((kept + y)[0] == kept[0]);
        lemma_swap_splits(x, kept + y, mark, value);
        lemma_swap_passes(kept, y, mark, value);
        let x1 = swap(x, mark, value);
        let y1 = swap(y, mark, value);
        assert(x1 + (kept + y1) =~= x1 + kept + y1);
        lemma_fill_around(x1, kept, y1, arguments, (n - 1) as nat);
    }
}

/// Text without a dollar sign is kept.
proof fn lemma_fill_plain(g: Seq<Glyph<char>>, arguments: Seq<Seq<char>>, n: nat)
    requires
        forall|i: int| 0 <= i < g.len() ==> #[trigger] g[i] != Glyph::Open('$'),
    ensures
        fill_positional(g, arguments, n) == g,
    decreases n,
{
    if n > 0 {
        lemma_placeholder(n);
        let none = Seq::<Glyph<char>>::empty();
        lemma_swap_passes(
            g,
            none,
            plain(placeholder(n)),
            glyphs(arguments[n - 1], arguments.len()),
        );
        assert(g + none =~= g);
        lemma_fill_plain(g, arguments, (n - 1) as nat);
    }
}

/// Text without a dollar sign is kept.
pub proof fn law_plain_text_is_kept(template: Seq<char>, args: Seq<char>)
    requires
        !template.contains('$'),
    ensures
        fill(template, args) == template,
{
    let ws = text::words(args);
    let n = ws.len();
    let g = plain(template);
    let mark = plain("$ARGUMENTS"@);
    reveal_strlit("$ARGUMENTS");
    lemma_glyphs_plain(template, n);
    assert forall|i: int| 0 <= i < g.len() implies #[trigger] g[i] != Glyph::Open('$') by {
        assert(template.contains(template[i]));
    }
    let none = Seq::<Glyph<char>>::empty();
    lemma_swap_passes(g, none, mark, glyphs(args, n));
    assert(g + none =~= g);
    lemma_fill_plain(g, ws, n);
    assert(shown(g) =~= template);
}

/// A placeholder that names no argument stays as it is written, whatever
/// argument the first of its digits would name, and what stands before and
/// behind it is filled as if it stood alone.
pub proof fn law_other_placeholders_stay(
    before: Seq<char>,
    run: Seq<char>,
    rest: Seq<char>,
    args: Seq<char>,
)
    requires
        run.len() > 0,
        text::all_digits(run),
        rest.len() > 0 ==> !text::ascii_digit(rest[0]),
        forall|k: nat| 0 < k <= text::words(args).len() ==> #[trigger] text::decimal(k) != run,
    ensures
        fill(before + (seq!['$'] + run) + rest, args) == fill(before, args) + (seq!['$'] + run)
            + fill(rest, args),
{
    let ws = text::words(args);
    let n = ws.len();
    let p = seq!['$'] + run;
    let kept = seq![Glyph::Kept] + plain(run);
    let mark = plain("$ARGUMENTS"@);
    let all = glyphs(args, n);
    lemma_named_argument(run, n);
    lemma_glyphs_of_placeholder(run, n);
    assert(before + p + rest =~= before + (p + rest));
    assert((p + rest)[0] == '$');
    lemma_glyphs_split(before, p + rest, n);
    lemma_glyphs_split(p, rest, n);
    reveal_strlit("$ARGUMENTS");
    assert(mark.len() > 0 && mark[0] == Glyph::Open('$'));
    assert forall|i: int| 0 <= i < kept.len() implies #[trigger] kept[i] != Glyph::Open('$') by {
        if i > 0 {
            assert(text::ascii_digit(run[i - 1]));
        }
    }
    let x = glyphs(before, n);
    let y = glyphs(rest, n);
    assert((kept + y)[0] is Kept);
    lemma_swap_splits(x, kept + y, mark, all);
    lemma_swap_passes(kept, y, mark, all);
    let x1 = swap(x, mark, all);
    let y1 = swap(y, mark, all);
    assert(x1 + (kept + y1) =~= x1 + kept + y1);
    lemma_fill_around(x1, kept, y1, ws, n);
    let x2 = fill_positional(x1, ws, n);
    let y2 = fill_positional(y1, ws, n);
    assert(shown(kept) =~= p);
    assert(shown(x2 + kept + y2) =~= shown(x2) + shown(kept) + shown(y2));
}

/// Whether a text that is being filled does not go on with digits.
spec fn no_digit_head(g: Seq<Glyph<char>>) -> bool {
    g.len() > 0 ==> !(g[0] matches Glyph::Open(c) && text::ascii_digit(c))
}

proof fn lemma_swap_head(y: Seq<Glyph<char>>, mark: Seq<Glyph<char>>, value: Seq<Glyph<char>>)
    requires
        value.len() > 0,
        no_digit_head(value),
        no_digit_head(y),
    ensures
        no_digit_head(swap(y, mark, value)),
{
    if y.len() > 0 && mark.len() > 0 && begins(y, mark) {
        assert(swap(y, mark, value)[0] == value[0]);
    }
}

/// A higher placeholder does not stand where a lower one does.
proof fn lemma_higher_differs(k: nat, m: nat, y: Seq<Glyph<char>>)
    requires
        0 < k < m,
        no_digit_head(y),
    ensures
        !begins(plain(placeholder(k)) + y, plain(placeholder(m))),
{
    let p = plain(placeholder(k));
    let mark = plain(placeholder(m));
    let dk = text::decimal(k);
    let dm = text::decimal(m);
    text::lemma_decimal(k);
    text::lemma_decimal(m);
    lemma_placeholder(m);
    if begins(p + y, mark) {
        let head = (p + y).take(mark.len() as int);
        if mark.len() > p.len() {
            let i = p.len() as int;
            assert(head[i] == y[0]);
            assert(mark[i] == y[0]);
        } else {
            assert forall|i: int| 0 <= i < dm.len() implies #[trigger] dm[i] == dk.take(
                dm.len() as int,
            )[i] by {
                assert(mark[i + 1] == Glyph::Open(dm[i]));
                assert(head[i + 1] == p[i + 1]);
                assert(p[i + 1] == Glyph::Open(dk[i]));
            }
            assert(dm =~= dk.take(dm.len() as int));
            text::lemma_digits_value_grows(dk, dm.len() as int);
        }
    }
}

/// Whether the arguments are words without dollar signs and digits.
spec fn plain_words(arguments: Seq<Seq<char>>) -> bool {
    forall|j: int|
        0 <= j < arguments.len() ==> {
            &&& (#[trigger] arguments[j]).len() > 0
            &&& !arguments[j].contains('$')
            &&& !text::ascii_digit(arguments[j][0])
        }
}

/// Around an argument that has been put in, the lower placeholders are replaced
/// apart.
proof fn lemma_fill_around_word(
    x: Seq<Glyph<char>>,
    w: Seq<char>,
    y: Seq<Glyph<char>>,
    arguments: Seq<Seq<char>>,
    n: nat,
)
    requires
        n <= arguments.len(),
        plain_words(arguments),
        w.len() > 0,
        !w.contains('$'),
        !text::ascii_digit(w[0]),
    ensures
        fill_positional(x + plain(w) + y, arguments, n) == fill_positional(x, arguments, n)
            + plain(w) + fill_positional(y, arguments, n),
    decreases n,
{
    if n > 0 {
        let g = plain(w);
        let mark = plain(placeholder(n));
        let value = glyphs(arguments[n - 1], arguments.len());
        lemma_placeholder(n);
        assert forall|i: int| 0 <= i < g.len() implies #[trigger] g[i] != mark[0] by {
            assert(w.contains(w[i]));
        }
        assert(x + g + y =~= x + (g + y));
        assert((g + y)[0] == Glyph::Open(w[0]));
        lemma_swap_splits(x, g + y, mark, value);
        lemma_swap_passes(g, y, mark, value);
        let x1 = swap(x, mark, value);
        let y1 = swap(y, mark, value);
        assert(x1 + (g + y1) =~= x1 + g + y1);
        lemma_fill_around_word(x1, w, y1, arguments, (n - 1) as nat);
    }
}

/// A placeholder is replaced by its argument, apart from what stands around it.
proof fn lemma_fill_at(
    x: Seq<Glyph<char>>,
    k: nat,
    y: Seq<Glyph<char>>,
    arguments: Seq<Seq<char>>,
    n: nat,
)
    requires
        0 < k <= n <= arguments.len(),
        plain_words(arguments),
        no_digit_head(y),
    ensures
        fill_positional(x + plain(placeholder(k)) + y, arguments, n) == fill_positional(
            x,
            arguments,
            n,
        ) + plain(arguments[k - 1]) + fill_positional(y, arguments, n),
    decreases n,
{
    let p = plain(placeholder(k));
    let mark = plain(placeholder(n));
    let w = arguments[n - 1];
    let value = glyphs(w, arguments.len());
    lemma_placeholder(k);
    lemma_placeholder(n);
    assert(w.len() > 0 && !w.contains('$'));
    lemma_glyphs_plain(w, arguments.len());
    assert(x + p + y =~= x + (p + y));
    assert((p + y)[0] == Glyph::Open('$'));
    lemma_swap_splits(x, p + y, mark, value);
    let x1 = swap(x, mark, value);
    let y1 = swap(y, mark, value);
    lemma_swap_head(y, mark, value);
    if n == k {
        assert((p + y).take(p.len() as int) =~= p);
        assert((p + y).skip(p.len() as int) =~= y);
        assert(x1 + (value + y1) =~= x1 + value + y1);
        lemma_fill_around_word(x1, w, y1, arguments, (n - 1) as nat);
    } else {
        lemma_higher_differs(k, n, y);
        let digits = p.skip(1);
        assert forall|i: int| 0 <= i < digits.len() implies #[trigger] digits[i] != mark[0] by {
            assert(digits[i] == p[i + 1]);
        }
        assert((p + y).skip(1) =~= digits + y);
        lemma_swap_passes(digits, y, mark, value);
        assert(seq![p[0]] + (digits + y1) =~= p + y1);
        assert(x1 + (p + y1) =~= x1 + p + y1);
        lemma_fill_at(x1, k, y1, arguments, (n - 1) as nat);
    }
}

/// Words are not empty, and hold only characters of the text.
proof fn lemma_words(s: Seq<char>)
    ensures
        s.len() == 0 ==> text::words(s).len() == 0,
        forall|j: int, i: int|
            0 <= j < text::words(s).len() && 0 <= i < text::words(s)[j].len() ==> s.contains(
                #[trigger] text::words(s)[j][i],
            ),
        forall|j: int| 0 <= j < text::words(s).len() ==> (#[trigger] text::words(s)[j]).len() > 0,
    decreases s.len(),
{
    let ws = text::words(s);
    if s.len() > 0 {
        let k: int = if text::white(s[0]) {
            1
        } else {
            text::word_len(s) as int
        };
        text::lemma_word_len(s);
        let rest = s.skip(k);
        lemma_words(rest);
        let from: int = if text::white(s[0]) {
            0
        } else {
            1
        };
        assert(text::words(rest) =~= ws.skip(from));
        assert forall|j: int, i: int| 0 <= j < ws.len() && 0 <= i < ws[j].len() implies s.contains(
            #[trigger] ws[j][i],
        ) by {
            if j < from {
                assert(ws[j][i] == s[i]);
            } else {
                assert(ws[j] == text::words(rest)[j - from]);
                let c = text::words(rest)[j - from][i];
                assert(rest.contains(c));
                let at = rest.index_of(c);
                assert(s[at + k] == c);
            }
        }
        assert forall|j: int| 0 <= j < ws.len() implies (#[trigger] ws[j]).len() > 0 by {
            if j >= from {
                assert(ws[j] == text::words(rest)[j - from]);
            }
        }
    }
}

/// With arguments that hold neither dollar signs nor digits, a placeholder is
/// replaced by the argument it names, and what stands before and behind it is
/// filled as if it stood alone.
pub proof fn law_placeholders_are_replaced(
    before: Seq<char>,
    k: nat,
    rest: Seq<char>,
    args: Seq<char>,
)
    requires
        0 < k <= text::words(args).len(),
        rest.len() > 0 ==> !text::ascii_digit(rest[0]),
        !args.contains('$'),
        forall|i: int| 0 <= i < args.len() ==> !text::ascii_digit(#[trigger] args[i]),
    ensures
        fill(before + placeholder(k) + rest, args) == fill(before, args) + text::words(args)[k - 1]
            + fill(rest, args),
{
    let ws = text::words(args);
    let n = ws.len();
    let run = text::decimal(k);
    let p = plain(placeholder(k));
    let mark = plain("$ARGUMENTS"@);
    let all = glyphs(args, n);
    text::lemma_decimal(k);
    lemma_named_argument(run, n);
    lemma_glyphs_of_placeholder(run, n);
    assert(seq![Glyph::Open('$')] + plain(run) =~= p);
    assert(before + placeholder(k) + rest =~= before + (placeholder(k) + rest));
    assert((placeholder(k) + rest)[0] == '$');
    lemma_glyphs_split(before, placeholder(k) + rest, n);
    lemma_glyphs_split(placeholder(k), rest, n);
    lemma_words(args);
    assert(plain_words(ws)) by {
        assert forall|j: int| 0 <= j < ws.len() implies {
            &&& (#[trigger] ws[j]).len() > 0
            &&& !ws[j].contains('$')
            &&& !text::ascii_digit(ws[j][0])
        } by {
            assert(args.contains(ws[j][0]));
            let i = args.index_of(ws[j][0]);
            assert(!text::ascii_digit(args[i]));
            if ws[j].contains('$') {
                let at = ws[j].index_of('$');
                assert(args.contains(ws[j][at]));
            }
        }
    }
    lemma_glyphs_plain(args, n);
    assert(all.len() > 0 && no_digit_head(all)) by {
        assert(!text::ascii_digit(args[0]));
    }
    reveal_strlit("$ARGUMENTS");
    lemma_placeholder(k);
    let x = glyphs(before, n);
    let y = glyphs(rest, n);
    assert(no_digit_head(y)) by {
        if rest.len() > 0 {
            assert(rest.skip(0) =~= rest);
        }
    }
    assert((p + y)[0] == Glyph::Open('$'));
    assert forall|i: int| 0 < i < mark.len() implies #[trigger] mark[i] != Glyph::Open('$') by {}
    lemma_swap_splits(x, p + y, mark, all);
    let digits = p.skip(1);
    assert(!begins(p + y, mark)) by {
        if begins(p + y, mark) {
            assert((p + y).take(mark.len() as int)[1] == p[1]);
            assert(mark[1] == Glyph::Open('A'));
        }
    }
    assert forall|i: int| 0 <= i < digits.len() implies #[trigger] digits[i] != mark[0] by {
        assert(digits[i] == p[i + 1]);
    }
    assert((p + y).skip(1) =~= digits + y);
    lemma_swap_passes(digits, y, mark, all);
    let x1 = swap(x, mark, all);
    let y1 = swap(y, mark, all);
    lemma_swap_head(y, mark, all);
    assert(seq![p[0]] + (digits + y1) =~= p + y1);
    assert(x1 + (p + y1) =~= x1 + p + y1);
    lemma_fill_at(x1, k, y1, ws, n);
    let w = plain(ws[k - 1]);
    let x2 = fill_positional(x1, ws, n);
    let y2 = fill_positional(y1, ws, n);
    assert(shown(w) =~= ws[k - 1]);
    assert(shown(x2 + w + y2) =~= shown(x2) + shown(w) + shown(y2));
}

/// With arguments that hold neither dollar signs nor digits, every `$ARGUMENTS` is
/// replaced by all of them as they were written, and what stands before and behind
/// it is filled as if it stood alone.
pub proof fn law_all_arguments_go_in(before: Seq<char>, rest: Seq<char>, args: Seq<char>)
    requires
        !args.contains('$'),
        forall|i: int| 0 <= i < args.len() ==> !text::ascii_digit(#[trigger] args[i]),
    ensures
        fill(before + "$ARGUMENTS"@ + rest, args) == fill(before, args) + args + fill(rest, args),
{
    let ws = text::words(args);
    let n = ws.len();
    let word = "$ARGUMENTS"@;
    let mark = plain(word);
    let all = glyphs(args, n);
    reveal_strlit("$ARGUMENTS");
    assert(before + word + rest =~= before + (word + rest));
    assert((word + rest)[0] == '$');
    lemma_glyphs_split(before, word + rest, n);
    let x = glyphs(before, n);
    let y = glyphs(rest, n);
    let s = word + rest;
    assert(glyphs(s, n) =~= mark + y) by {
        assert forall|i: int| 0 <= i < s.len() implies #[trigger] glyphs(s, n)[i] == (mark + y)[i] by {
            if i < 10 {
                assert(s.skip(i)[0] == word[i]);
                if i == 0 {
                    assert(s.skip(0).skip(1)[0] == 'A');
                }
            } else {
                assert(s.skip(i) =~= rest.skip(i - 10));
            }
        }
    }
    lemma_words(args);
    assert(plain_words(ws)) by {
        assert forall|j: int| 0 <= j < ws.len() implies {
            &&& (#[trigger] ws[j]).len() > 0
            &&& !ws[j].contains('$')
            &&& !text::ascii_digit(ws[j][0])
        } by {
            assert(args.contains(ws[j][0]));
            let i = args.index_of(ws[j][0]);
            assert(!text::ascii_digit(args[i]));
            if ws[j].contains('$') {
                let at = ws[j].index_of('$');
                assert(args.contains(ws[j][at]));
            }
        }
    }
    lemma_glyphs_plain(args, n);
    assert forall|i: int| 0 < i < mark.len() implies #[trigger] mark[i] != Glyph::Open('$') by {}
    assert((mark + y)[0] == Glyph::Open('$'));
    lemma_swap_splits(x, mark + y, mark, all);
    assert((mark + y).take(mark.len() as int) =~= mark);
    assert((mark + y).skip(mark.len() as int) =~= y);
    let x1 = swap(x, mark, all);
    let y1 = swap(y, mark, all);
    assert(x1 + (all + y1) =~= x1 + all + y1);
    if args.len() > 0 {
        assert(!text::ascii_digit(args[0]));
        lemma_fill_around_word(x1, args, y1, ws, n);
    }
    let x2 = fill_positional(x1, ws, n);
    let y2 = fill_positional(y1, ws, n);
    assert(shown(all) =~= args);
    assert(shown(x2 + all + y2) =~= shown(x2) + shown(all) + shown(y2));
}

/// Which of the first `n` arguments a run of digits names.
fn argument_named(run: &str, n: usize) -> (r: usize)
    ensures
        r == named_argument(run@, n as nat),
        r <= n,
{
    let mut k: usize = n;
    while k > 0
        invariant
            k <= n,
            named_argument(run@, n as nat) == named_argument(run@, k as nat),
        decreases k,
    {
        if text_eq(decimal_of(k as u128).as_str(), run) {
            return k;
        }
        k -= 1;
    }
    0
}

/// How many digits stand in `v` from `from` on.
fn digits_at(v: &Vec<char>, from: usize) -> (r: usize)
    requires
        from <= v.len(),
    ensures
        r == digit_run(v@.skip(from as int)),
        from + r <= v.len(),
{
    let mut i: usize = from;
    while i < v.len() && is_digit(v[i])
        invariant
            from <= i <= v.len(),
            digit_run(v@.skip(from as int)) == i - from + digit_run(v@.skip(i as int)),
        decreases v.len() - i,
    {
        assert(v@.skip(i as int).skip(1) =~= v@.skip(i + 1));
        i += 1;
    }
    i - from
}

/// A text that is to be filled with `n` arguments.
fn glyphs_of(s: &str, n: usize) -> (r: Vec<Glyph<char>>)
    ensures
        r@ == glyphs(s@, n as nat),
{
    let v = chars_of(s);
    let mut out: Vec<Glyph<char>> = Vec::new();
    let mut i: usize = 0;
    while i < v.len()
        invariant
            i <= v.len(),
            v@ == s@,
            out@ == glyphs(s@, n as nat).take(i as int),
        decreases v.len() - i,
    {
        let ghost rest = s@.skip(i as int);
        assert(rest.skip(1) =~= v@.skip(i + 1));
        let mut kept = false;
        if v[i] == '$' {
            let digits = digits_at(&v, i + 1);
            if digits > 0 {
                let run = string_of_range(&v, i + 1, i + 1 + digits);
                assert(run@ =~= rest.skip(1).take(digits as int));
                kept = argument_named(run.as_str(), n) == 0;
            }
        }
        assert(kept == stays(rest, n as nat));
        if kept {
            out.push(Glyph::Kept);
        } else {
            out.push(Glyph::Open(v[i]));
        }
        i += 1;
        assert(out@ =~= glyphs(s@, n as nat).take(i as int));
    }
    assert(glyphs(s@, n as nat).take(v@.len() as int) =~= glyphs(s@, n as nat));
    out
}

/// A text in which nothing is kept.
fn plain_of(s: &str) -> (r: Vec<Glyph<char>>)
    ensures
        r@ == plain(s@),
{
    let v = chars_of(s);
    let mut out: Vec<Glyph<char>> = Vec::new();
    let mut i: usize = 0;
    while i < v.len()
        invariant
            i <= v.len(),
            v@ == s@,
            out@ == plain(s@).take(i as int),
        decreases v.len() - i,
    {
        out.push(Glyph::Open(v[i]));
        i += 1;
        assert(out@ =~= plain(s@).take(i as int));
    }
    assert(plain(s@).take(v@.len() as int) =~= plain(s@));
    out
}

/// A filled template as it is shown in the end.
fn shown_of(g: &Vec<Glyph<char>>) -> (r: String)
    ensures
        r@ == shown(g@),
{
    let mut out = String::new();
    let mut i: usize = 0;
    while i < g.len()
        invariant
            i <= g.len(),
            out@ == shown(g@).take(i as int),
        decreases g.len() - i,
    {
        match g[i] {
            Glyph::Open(c) => {
                out.push(c);
            },
            Glyph::Kept => {
                out.push('$');
            },
        }
        i += 1;
        assert(out@ =~= shown(g@).take(i as int));
    }
    assert(shown(g@).take(g@.len() as int) =~= shown(g@));
    out
}

/// Whether two characters of a template are the same.
fn same_glyph(a: Glyph<char>, b: Glyph<char>) -> (r: bool)
    ensures
        r == (a == b),
{
    match (a, b) {
        (Glyph::Open(x), Glyph::Open(y)) => x == y,
        (Glyph::Kept, Glyph::Kept) => true,
        _ => false,
    }
}

/// Whether `mark` stands in `g` at `at`.
fn stands_at(g: &Vec<Glyph<char>>, mark: &Vec<Glyph<char>>, at: usize) -> (r: bool)
    requires
        at <= g.len(),
    ensures
        r == begins(g@.skip(at as int), mark@),
{
    if mark.len() > g.len() - at {
        return false;
    }
    let ghost head = g@.skip(at as int).take(mark@.len() as int);
    let mut i: usize = 0;
    while i < mark.len()
        invariant
            i <= mark.len() <= g.len() - at,
            at <= g.len(),
            head == g@.skip(at as int).take(mark@.len() as int),
            forall|j: int| 0 <= j < i ==> #[trigger] head[j] == mark@[j],
        decreases mark.len() - i,
    {
        assert(head[i as int] == g@[at + i]);
        if !same_glyph(g[at + i], mark[i]) {
            return false;
        }
        i += 1;
    }
    assert(head =~= mark@);
    true
}

/// `g` with every occurrence of `mark` replaced by `value`.
fn swapped(g: &Vec<Glyph<char>>, mark: &Vec<Glyph<char>>, value: &Vec<Glyph<char>>) -> (r: Vec<Glyph<char>>)
    requires
        mark@.len() > 0,
    ensures
        r@ == swap(g@, mark@, value@),
{
    let mut out: Vec<Glyph<char>> = Vec::new();
    let mut i: usize = 0;
    assert(g@.skip(0) =~= g@);
    assert(out@ + swap(g@, mark@, value@) =~= swap(g@, mark@, value@));
    while i < g.len()
        invariant
            i <= g.len(),
            mark@.len() > 0,
            out@ + swap(g@.skip(i as int), mark@, value@) == swap(g@, mark@, value@),
        decreases g.len() - i,
    {
        let ghost rest = g@.skip(i as int);
        let ghost before = out@;
        if stands_at(g, mark, i) {
            let mut j: usize = 0;
            while j < value.len()
                invariant
                    j <= value.len(),
                    out@ == before + value@.take(j as int),
                decreases value.len() - j,
            {
                out.push(value[j]);
                j += 1;
                assert(out@ =~= before + value@.take(j as int));
            }
            proof {
                assert(value@.take(value@.len() as int) =~= value@);
                assert(rest.skip(mark@.len() as int) =~= g@.skip(i + mark@.len()));
                assert(out@ + swap(g@.skip(i + mark@.len()), mark@, value@) =~= before + swap(
                    rest,
                    mark@,
                    value@,
                ));
            }
            i = i + mark.len();
        } else {
            out.push(g[i]);
            proof {
                assert(rest.skip(1) =~= g@.skip(i + 1));
                assert(out@ + swap(g@.skip(i + 1), mark@, value@) =~= before + swap(
                    rest,
                    mark@,
                    value@,
                ));
            }
            i += 1;
        }
    }
    assert(g@.skip(i as int) =~= Seq::<Glyph<char>>::empty());
    assert(out@ + Seq::<Glyph<char>>::empty() =~= out@);
    out
}

/// Fills a template with arguments.
pub fn expand_template(template: &str, args: &str) -> (r: String)
    ensures
        r@ == fill(template@, args@),
{
    proof {
        reveal_strlit("$ARGUMENTS");
    }
    let positional = words_of(args);
    let count = positional.len();
    let ghost ws = text::words(args@);
    assert(ws.len() == count);
    let mut result = swapped(
        &glyphs_of(template, count),
        &plain_of("$ARGUMENTS"),
        &glyphs_of(args, count),
    );
    let ghost begun = result@;
    let mut n: usize = count;
    while n > 0
        invariant
            n <= count,
            count == positional.len(),
            ws == text::texts(positional@),
            fill_positional(begun, ws, count as nat) == fill_positional(result@, ws, n as nat),
        decreases n,
    {
        let mut mark = String::new();
        mark.push('$');
        mark.append(decimal_of(n as u128).as_str());
        proof {
            assert(mark@ =~= placeholder(n as nat));
            lemma_placeholder(n as nat);
            assert(ws[n - 1] == positional@[n - 1]@);
            assert(ws.len() == count);
        }
        result =
        swapped(
            &result,
            &plain_of(mark.as_str()),
            &glyphs_of(positional[n - 1].as_str(), count),
        );
        n -= 1;
    }
    shown_of(&result)
}

// ---------------------------------------------------------------------------
// Skill mentions
// ---------------------------------------------------------------------------

/// What begins a mention of a skill.
pub open spec fn marker() -> Seq<char> {
    seq!['@', 's', 'k', 'i', 'l', 'l', ':']
}

/// The characters of a skill's name.
pub open spec fn name_char(c: char) -> bool {
    text::ascii_alphanumeric(c) || c == '_' || c == '-'
}

/// How many characters of `s` belong to the name at its head.
pub open spec fn name_len(s: Seq<char>) -> nat
    decreases s.len(),
{
    if s.len() == 0 || !name_char(s[0]) {
        0
    } else {
        1 + name_len(s.skip(1))
    }
}

proof fn lemma_name_len(s: Seq<char>)
    ensures
        name_len(s) <= s.len(),
    decreases s.len(),
{
    if s.len() > 0 && name_char(s[0]) {
        lemma_name_len(s.skip(1));
    }
}

/// A text cut at its first mention: what stands before it, the name, and what
/// follows the name.
pub open spec fn first_mention(s: Seq<char>) -> Option<(Seq<char>, Seq<char>, Seq<char>)> {
    match text::find(s, marker()) {
        None => None,
        Some(i) => {
            let after = s.skip(i + marker().len());
            Some((s.take(i), after.take(name_len(after) as int), after.skip(name_len(after) as int)))
        },
    }
}

/// What follows a mention is shorter than the text.
pub proof fn lemma_first_mention(s: Seq<char>)
    ensures
        first_mention(s) is Some ==> (first_mention(s)->0).2.len() < s.len(),
{
    text::lemma_find_from(s, marker(), 0);
    if let Some(i) = text::find(s, marker()) {
        lemma_name_len(s.skip(i + marker().len()));
    }
}

/// `s` with each mention of an inert skill replaced by that skill's contents.
/// Unknown and executable skills stay as they are mentioned, and what is put
/// in is not searched again.
pub open spec fn inlined(s: Seq<char>, skills: Map<Seq<char>, SkillModel>) -> Seq<char>
    decreases s.len(),
{
    match first_mention(s) {
        None => s,
        Some((head, name, tail)) => {
            proof {
                lemma_first_mention(s);
            }
            head + (if skills.contains_key(name) && skills[name].run is None {
                skills[name].contents
            } else {
                marker() + name
            }) + inlined(tail, skills)
        },
    }
}

/// What came of an executable skill's mention.
pub enum SkillOutcome {
    /// Consent was refused.
    Declined,
    /// The command ran and printed this.
    Ran(Seq<char>),
    /// The command failed.
    Failed(Seq<char>),
}

/// What an executable skill's mention is replaced by. Never the skill's body.
pub open spec fn outcome_text(name: Seq<char>, outcome: SkillOutcome) -> Seq<char> {
    match outcome {
        SkillOutcome::Declined => "[skill '"@ + name + "' not executed]"@,
        SkillOutcome::Ran(stdout) => text::trim_end_char(stdout, '\n'),
        SkillOutcome::Failed(error) => "[skill '"@ + name + "' run command failed: "@ + error
            + "]"@,
    }
}

/// `s` with every mention of a known skill replaced: an inert one by its
/// contents, an executable one by what came of it, in order.
pub open spec fn resolved(
    s: Seq<char>,
    skills: Map<Seq<char>, SkillModel>,
    outcomes: Seq<SkillOutcome>,
) -> Seq<char>
    decreases s.len(),
{
    match first_mention(s) {
        None => s,
        Some((head, name, tail)) => {
            proof {
                lemma_first_mention(s);
            }
            if !skills.contains_key(name) {
                head + (marker() + name) + resolved(tail, skills, outcomes)
            } else if skills[name].run is None {
                head + skills[name].contents + resolved(tail, skills, outcomes)
            } else {
                head + outcome_text(name, outcomes[0]) + resolved(tail, skills, outcomes.skip(1))
            }
        },
    }
}

/// The first executable skill that `s` mentions.
pub open spec fn next_executable(s: Seq<char>, skills: Map<Seq<char>, SkillModel>) -> Option<
    Seq<char>,
>
    decreases s.len(),
{
    match first_mention(s) {
        None => None,
        Some((head, name, tail)) => {
            proof {
                lemma_first_mention(s);
            }
            if skills.contains_key(name) && skills[name].run is Some {
                Some(name)
            } else {
                next_executable(tail, skills)
            }
        },
    }
}

/// What follows the first executable skill that `s` mentions.
pub open spec fn behind_executable(s: Seq<char>, skills: Map<Seq<char>, SkillModel>) -> Seq<char>
    decreases s.len(),
{
    match first_mention(s) {
        None => Seq::empty(),
        Some((head, name, tail)) => {
            proof {
                lemma_first_mention(s);
            }
            if skills.contains_key(name) && skills[name].run is Some {
                tail
            } else {
                behind_executable(tail, skills)
            }
        },
    }
}

fn is_name_char(c: char) -> (r: bool)
    ensures
        r == name_char(c),
{
    ('0' <= c && c <= '9') || ('A' <= c && c <= 'Z') || ('a' <= c && c <= 'z') || c == '_' || c
        == '-'
}

/// Cuts `v[from..]` at its first mention: the place of the marker, the place
/// of the name and the place behind it.
fn scan_mention(v: &Vec<char>, from: usize) -> (r: Option<(usize, usize, usize)>)
    requires
        from <= v.len(),
    ensures
        match r {
            None => first_mention(v@.skip(from as int)) is None,
            Some((at, name, end)) => {
                &&& from <= at <= name <= end <= v.len()
                &&& from < end
                &&& first_mention(v@.skip(from as int)) == Some(
                    (
                        v@.subrange(from as int, at as int),
                        v@.subrange(name as int, end as int),
                        v@.skip(end as int),
                    ),
                )
            },
        },
{
    let mark = chars_of("@skill:");
    proof {
        reveal_strlit("@skill:");
        assert(mark@ =~= marker());
        text::lemma_find_skip(v@, marker(), from as int, from as int);
    }
    let ghost rest = v@.skip(from as int);
    match find_at(v, &mark, from) {
        None => None,
        Some(at) => {
            let name: usize = at + mark.len();
            let ghost after = v@.skip(name as int);
            let mut end: usize = name;
            while end < v.len() && is_name_char(v[end])
                invariant
                    name <= end <= v.len(),
                    after == v@.skip(name as int),
                    name_len(after) == (end - name) + name_len(v@.skip(end as int)),
                decreases v.len() - end,
            {
                assert(v@.skip(end as int).skip(1) =~= v@.skip(end + 1));
                end += 1;
            }
            proof {
                assert(rest.take(at - from) =~= v@.subrange(from as int, at as int));
                assert(rest.skip(at - from + marker().len()) =~= after);
                assert(after.take(end - name) =~= v@.subrange(name as int, end as int));
                assert(after.skip(end - name) =~= v@.skip(end as int));
            }
            Some((at, name, end))
        },
    }
}

/// The map of command models.
pub open spec fn command_models(m: Map<Seq<char>, CustomCommand>) -> Map<Seq<char>, CommandModel> {
    Map::new(|k: Seq<char>| m.contains_key(k), |k: Seq<char>| m[k]@)
}

/// The map of skill models.
pub open spec fn skill_models(m: Map<Seq<char>, Skill>) -> Map<Seq<char>, SkillModel> {
    Map::new(|k: Seq<char>| m.contains_key(k), |k: Seq<char>| m[k]@)
}

/// `text` with each mention of an inert skill replaced by its contents.
fn inline_inert_skill_mentions(text: &str, skills: &TextMap<Skill>) -> (r: String)
    requires
        skills.wf(),
    ensures
        r@ == inlined(text@, skill_models(skills@)),
{
    let v = chars_of(text);
    let ghost models = skill_models(skills@);
    let mut out = String::new();
    let mut pos: usize = 0;
    assert(text@.skip(0) =~= text@);
    assert(out@ + inlined(text@, models) =~= inlined(text@, models));
    loop
        invariant
            pos <= v.len(),
            v@ == text@,
            skills.wf(),
            models == skill_models(skills@),
            out@ + inlined(text@.skip(pos as int), models) == inlined(text@, models),
        decreases v.len() - pos,
    {
        let ghost rest = text@.skip(pos as int);
        let ghost before = out@;
        match scan_mention(&v, pos) {
            None => {
                let tail = string_of_range(&v, pos, v.len());
                assert(tail@ =~= rest);
                out.append(tail.as_str());
                return out;
            },
            Some((at, name_at, end)) => {
                let head = string_of_range(&v, pos, at);
                let name = string_of_range(&v, name_at, end);
                out.append(head.as_str());
                match skills.get(name.as_str()) {
                    Some(skill) => {
                        if skill.run.is_none() {
                            out.append(skill.contents.as_str());
                            proof {
                                assert(out@ + inlined(text@.skip(end as int), models) =~= before
                                    + inlined(rest, models));
                            }
                        } else {
                            out.append("@skill:");
                            out.append(name.as_str());
                            proof {
                                reveal_strlit("@skill:");
                                assert("@skill:"@ =~= marker());
                                assert(out@ + inlined(text@.skip(end as int), models) =~= before
                                    + inlined(rest, models));
                            }
                        }
                    },
                    None => {
                        out.append("@skill:");
                        out.append(name.as_str());
                        proof {
                            reveal_strlit("@skill:");
                            assert("@skill:"@ =~= marker());
                            assert(out@ + inlined(text@.skip(end as int), models) =~= before
                                + inlined(rest, models));
                        }
                    },
                }
                pos = end;
            },
        }
    }
}

// ---------------------------------------------------------------------------
// The registry
// ---------------------------------------------------------------------------

/// The commands and the skills that were found, by name.
pub struct CommandRegistry {
    commands: TextMap<CustomCommand>,
    skills: TextMap<Skill>,
}

/// The commands in the files of a directory.
pub open spec fn commands_in(files: Seq<DirFile>) -> Map<Seq<char>, CommandModel>
    decreases files.len(),
{
    if files.len() == 0 {
        Map::empty()
    } else {
        let before = commands_in(files.drop_last());
        let f = files.last();
        match (md_stem(f.name@), text::opt_text(f.contents)) {
            (Some(stem), Some(contents)) => before.insert(stem, command_of(contents)),
            _ => before,
        }
    }
}

/// What a skill file stands for.
pub open spec fn skill_of(
    dir: Seq<char>,
    name: Seq<char>,
    contents: Seq<char>,
    scope: SkillScope,
) -> SkillModel {
    SkillModel {
        path: text::join_path(dir, name),
        contents,
        run: run_of(contents),
        scope,
    }
}

/// The skills in the files of a directory.
pub open spec fn skills_in(dir: Seq<char>, files: Seq<DirFile>, scope: SkillScope) -> Map<
    Seq<char>,
    SkillModel,
>
    decreases files.len(),
{
    if files.len() == 0 {
        Map::empty()
    } else {
        let before = skills_in(dir, files.drop_last(), scope);
        let f = files.last();
        match (md_stem(f.name@), text::opt_text(f.contents)) {
            (Some(stem), Some(contents)) => before.insert(
                stem,
                skill_of(dir, f.name@, contents, scope),
            ),
            _ => before,
        }
    }
}

/// Reads the command files of a directory: markdown files, by their name
/// without extension. A file that could not be read is passed over.
fn scan_commands_dir(files: &Vec<DirFile>) -> (r: TextMap<CustomCommand>)
    ensures
        r.wf(),
        command_models(r@) == commands_in(files@),
{
    let mut commands: TextMap<CustomCommand> = TextMap::new();
    let mut i: usize = 0;
    assert(command_models(commands@) =~= commands_in(files@.take(0)));
    while i < files.len()
        invariant
            i <= files.len(),
            commands.wf(),
            command_models(commands@) == commands_in(files@.take(i as int)),
        decreases files.len() - i,
    {
        let ghost before = commands@;
        proof {
            assert(files@.take(i + 1).drop_last() =~= files@.take(i as int));
            assert(files@.take(i + 1).last() == files@[i as int]);
        }
        match (without_ending(files[i].name.as_str(), ".md"), &files[i].contents) {
            (Some(stem), Some(contents)) => {
                let command = parse_command_file(contents.as_str());
                commands.insert(stem, command);
                assert(command_models(commands@) =~= command_models(before).insert(
                    stem@,
                    command@,
                ));
            },
            _ => {},
        }
        i += 1;
    }
    assert(files@.take(files@.len() as int) =~= files@);
    commands
}

/// Reads the skill files of a directory in the same way. A skill's contents
/// are kept as they are.
fn scan_skills_dir(dir: &str, files: &Vec<DirFile>, scope: SkillScope) -> (r: TextMap<Skill>)
    ensures
        r.wf(),
        skill_models(r@) == skills_in(dir@, files@, scope),
{
    let mut skills: TextMap<Skill> = TextMap::new();
    let mut i: usize = 0;
    assert(skill_models(skills@) =~= skills_in(dir@, files@.take(0), scope));
    while i < files.len()
        invariant
            i <= files.len(),
            skills.wf(),
            skill_models(skills@) == skills_in(dir@, files@.take(i as int), scope),
        decreases files.len() - i,
    {
        let ghost before = skills@;
        proof {
            assert(files@.take(i + 1).drop_last() =~= files@.take(i as int));
            assert(files@.take(i + 1).last() == files@[i as int]);
        }
        match (without_ending(files[i].name.as_str(), ".md"), &files[i].contents) {
            (Some(stem), Some(contents)) => {
                let skill = Skill {
                    path: path_join(dir, files[i].name.as_str()),
                    contents: contents.clone(),
                    run: parse_skill_run_field(contents.as_str()),
                    scope,
                };
                skills.insert(stem, skill);
                assert(skill_models(skills@) =~= skill_models(before).insert(stem@, skill@));
            },
            _ => {},
        }
        i += 1;
    }
    assert(files@.take(files@.len() as int) =~= files@);
    skills
}

/// What a slash command expands to: nothing if the input is none, or names no
/// known command.
pub open spec fn expansion(
    input: Seq<char>,
    commands: Map<Seq<char>, CommandModel>,
    skills: Map<Seq<char>, SkillModel>,
) -> Option<Seq<char>> {
    if input.len() == 0 || input[0] != '/' {
        None
    } else {
        let (name, rest) = text::first_word(input.skip(1));
        if commands.contains_key(name) {
            Some(inlined(fill(commands[name].template, text::trim_start(rest)), skills))
        } else {
            None
        }
    }
}

impl CommandRegistry {
    /// The commands, by name.
    pub closed spec fn commands_spec(self) -> Map<Seq<char>, CommandModel> {
        command_models(self.commands@)
    }

    /// The skills, by name.
    pub closed spec fn skills_spec(self) -> Map<Seq<char>, SkillModel> {
        skill_models(self.skills@)
    }

    /// Every name stands for one command and one skill at most.
    pub closed spec fn wf(self) -> bool {
        self.commands.wf() && self.skills.wf()
    }

    /// The user's own commands and skills: the files of the `commands` and
    /// the `skills` directory of the configuration directory.
    pub fn discover_user_scope(
        config_dir: &str,
        command_files: &Vec<DirFile>,
        skill_files: &Vec<DirFile>,
    ) -> (r: CommandRegistry)
        ensures
            r.wf(),
            r.commands_spec() == commands_in(command_files@),
            r.skills_spec() == skills_in(
                text::join_path(config_dir@, "skills"@),
                skill_files@,
                SkillScope::User,
            ),
    {
        let dir = path_join(config_dir, "skills");
        CommandRegistry {
            commands: scan_commands_dir(command_files),
            skills: scan_skills_dir(dir.as_str(), skill_files, SkillScope::User),
        }
    }

    /// A project's commands and skills, from the directories of the same
    /// names below `.rokr`.
    pub fn discover_project_scope(
        project_dir: &str,
        command_files: &Vec<DirFile>,
        skill_files: &Vec<DirFile>,
    ) -> (r: CommandRegistry)
        ensures
            r.wf(),
            r.commands_spec() == commands_in(command_files@),
            r.skills_spec() == skills_in(
                text::join_path(text::join_path(project_dir@, ".rokr"@), "skills"@),
                skill_files@,
                SkillScope::Project,
            ),
    {
        let root = path_join(project_dir, ".rokr");
        let dir = path_join(root.as_str(), "skills");
        CommandRegistry {
            commands: scan_commands_dir(command_files),
            skills: scan_skills_dir(dir.as_str(), skill_files, SkillScope::Project),
        }
    }

    /// Takes in the commands and skills of `other`, which win over those of
    /// the same name.
    pub fn merge_overriding(&mut self, other: CommandRegistry)
        requires
            old(self).wf(),
            other.wf(),
        ensures
            final(self).wf(),
            final(self).commands_spec() == old(self).commands_spec().union_prefer_right(
                other.commands_spec(),
            ),
            final(self).skills_spec() == old(self).skills_spec().union_prefer_right(
                other.skills_spec(),
            ),
    {
        let CommandRegistry { commands, skills } = other;
        self.commands.absorb(commands);
        self.skills.absorb(skills);
        assert(self.commands_spec() =~= old(self).commands_spec().union_prefer_right(
            other.commands_spec(),
        ));
        assert(self.skills_spec() =~= old(self).skills_spec().union_prefer_right(
            other.skills_spec(),
        ));
    }

    /// The command of that name.
    pub fn get(&self, name: &str) -> (r: Option<&CustomCommand>)
        requires
            self.wf(),
        ensures
            match r {
                Some(c) => self.commands_spec().contains_key(name@) && c@
                    == self.commands_spec()[name@],
                None => !self.commands_spec().contains_key(name@),
            },
    {
        self.commands.get(name)
    }

    /// Expands a slash command: its template filled with the rest of the line,
    /// mentions of inert skills replaced. Executable skills are left to be
    /// resolved with consent.
    pub fn expand(&self, input: &str) -> (r: Option<String>)
        requires
            self.wf(),
        ensures
            text::opt_text(r) == expansion(input@, self.commands_spec(), self.skills_spec()),
    {
        let v = chars_of(input);
        if v.len() == 0 || v[0] != '/' {
            return None;
        }
        let rest = string_of_range(&v, 1, v.len());
        assert(rest@ =~= input@.skip(1));
        let (name, args) = split_first_word(rest.as_str());
        match self.get(name.as_str()) {
            None => None,
            Some(command) => {
                let args = trimmed_start(args.as_str());
                let filled = expand_template(command.template.as_str(), args.as_str());
                Some(inline_inert_skill_mentions(filled.as_str(), &self.skills))
            },
        }
    }

    /// Begins to resolve the skill mentions of a text.
    pub fn resolve_skills(&self, text: &str) -> (r: SkillResolver<'_>)
        requires
            self.wf(),
        ensures
            r.wf(),
            r.phase() == SkillPhase::Scanning,
            r.registry_spec() == *self,
            r.text_spec() == text@,
            r.outcomes() == Seq::<SkillOutcome>::empty(),
            r.rest() == text@,
    {
        let chars = chars_of(text);
        let r = SkillResolver {
            registry: self,
            output: String::new(),
            chars,
            pos: 0,
            name: String::new(),
            phase: SkillPhase::Scanning,
            text: Ghost(text@),
            done: Ghost(Seq::empty()),
        };
        proof {
            assert(r.rest() =~= text@);
            assert forall|more: Seq<SkillOutcome>|
                resolved(text@, r.skills(), r.outcomes() + more) == r.output@
                    + #[trigger] resolved(r.rest(), r.skills(), more) by {
                assert(r.outcomes() + more =~= more);
                assert(r.output@ + resolved(text@, r.skills(), more) =~= resolved(
                    text@,
                    r.skills(),
                    more,
                ));
            }
        }
        r
    }
}

// ---------------------------------------------------------------------------
// Resolving with consent
// ---------------------------------------------------------------------------

/// Where the resolution of a mention stands.
#[derive(Debug, Clone, Copy, PartialEq, Eq, Structural)]
pub enum SkillPhase {
    /// Between two mentions.
    Scanning,
    /// Waiting to hear whether the skill's contents were approved before.
    CheckingTrust,
    /// Waiting for consent.
    AskingConsent,
    /// Waiting for the approval to be recorded.
    Recording,
    /// Waiting for the command.
    Running,
    /// All mentions are resolved.
    Finished,
    /// The approval could not be recorded.
    Failed,
}

/// What to do next.
#[derive(Debug, PartialEq, Eq)]
pub enum SkillAction {
    /// Look the approval up and hand the answer to `on_trust`.
    CheckTrust { path: String, hash: String },
    /// Ask for consent and hand the answer to `on_consent`.
    AskConsent(SkillConsentRequest),
    /// Record the approval and tell `on_recorded`.
    Record { path: String, hash: String },
    /// Run this command, unchanged, and hand its output to `on_run`.
    Run { command: String },
    /// Nothing to do outside: call `next`.
    Continue,
    /// The text with all mentions resolved.
    Finished(String),
    /// Why the text could not be resolved.
    Failed(String),
}

/// Anything that can come back about one mention.
pub enum GateEvent {
    Trust(bool),
    Consent(ConsentOutcome),
    Recorded(bool),
}

/// How a mention moves on. A skill of the user's own starts at `Running`, one
/// of the project at `CheckingTrust`.
pub open spec fn gate(e: GateEvent) -> SkillPhase {
    match e {
        GateEvent::Trust(true) => SkillPhase::Running,
        GateEvent::Trust(false) => SkillPhase::AskingConsent,
        GateEvent::Consent(ConsentOutcome::ApproveAndPersist) => SkillPhase::Recording,
        GateEvent::Consent(ConsentOutcome::ApproveWithoutPersisting) => SkillPhase::Running,
        GateEvent::Consent(ConsentOutcome::Decline) => SkillPhase::Scanning,
        GateEvent::Recorded(true) => SkillPhase::Running,
        GateEvent::Recorded(false) => SkillPhase::Failed,
    }
}

/// The resolution of one text's skill mentions, under way.
pub struct SkillResolver<'a> {
    registry: &'a CommandRegistry,
    output: String,
    chars: Vec<char>,
    pos: usize,
    name: String,
    phase: SkillPhase,
    text: Ghost<Seq<char>>,
    done: Ghost<Seq<SkillOutcome>>,
}

impl<'a> SkillResolver<'a> {
    /// Where the resolution stands.
    pub closed spec fn phase(self) -> SkillPhase {
        self.phase
    }

    /// The registry that names are looked up in.
    pub closed spec fn registry_spec(self) -> CommandRegistry {
        *self.registry
    }

    /// The text that is being resolved.
    pub closed spec fn text_spec(self) -> Seq<char> {
        self.text@
    }

    /// What came of the executable mentions so far.
    pub closed spec fn outcomes(self) -> Seq<SkillOutcome> {
        self.done@
    }

    /// What is still to be searched.
    pub closed spec fn rest(self) -> Seq<char> {
        self.chars@.skip(self.pos as int)
    }

    /// The skill whose mention is being resolved.
    pub closed spec fn current(self) -> Seq<char> {
        self.name@
    }

    /// The skills that are known.
    pub open spec fn skills(self) -> Map<Seq<char>, SkillModel> {
        self.registry_spec().skills_spec()
    }

    /// The skill under way, in full.
    pub open spec fn skill(self) -> SkillModel {
        self.skills()[self.current()]
    }

    /// Whether a mention is being resolved.
    pub open spec fn busy(self) -> bool {
        ||| self.phase() == SkillPhase::CheckingTrust
        ||| self.phase() == SkillPhase::AskingConsent
        ||| self.phase() == SkillPhase::Recording
        ||| self.phase() == SkillPhase::Running
    }

    /// What every method keeps: what is written so far, followed by what the
    /// rest resolves to, is what the whole text resolves to.
    pub closed spec fn wf(self) -> bool {
        &&& self.registry.wf()
        &&& self.pos <= self.chars@.len()
        &&& self.phase == SkillPhase::Scanning ==> forall|more: Seq<SkillOutcome>|
            resolved(self.text@, self.skills(), self.done@ + more) == self.output@
                + #[trigger] resolved(self.rest(), self.skills(), more)
        &&& self.busy() ==> {
            &&& self.skills().contains_key(self.name@)
            &&& self.skills()[self.name@].run is Some
            &&& forall|o: SkillOutcome, more: Seq<SkillOutcome>|
                resolved(self.text@, self.skills(), self.done@.push(o) + more) == self.output@
                    + #[trigger] outcome_text(self.name@, o) + #[trigger] resolved(
                    self.rest(),
                    self.skills(),
                    more,
                )
        }
    }

    /// The state with another phase and nothing else changed.
    pub open spec fn only_phase_changed(self, other: SkillResolver<'a>) -> bool {
        &&& self.registry_spec() == other.registry_spec()
        &&& self.text_spec() == other.text_spec()
        &&& self.outcomes() == other.outcomes()
        &&& self.rest() == other.rest()
        &&& self.current() == other.current()
    }

    /// The state after the current mention has been settled.
    pub open spec fn settled(self, other: SkillResolver<'a>, outcome: SkillOutcome) -> bool {
        &&& self.registry_spec() == other.registry_spec()
        &&& self.text_spec() == other.text_spec()
        &&& self.outcomes() == other.outcomes().push(outcome)
        &&& self.rest() == other.rest()
        &&& self.phase() == SkillPhase::Scanning
    }

    fn current_skill(&self) -> (r: &'a Skill)
        requires
            self.wf(),
            self.busy(),
        ensures
            r@ == self.skill(),
            r.run is Some,
    {
        let registry: &'a CommandRegistry = self.registry;
        registry.skills.get(self.name.as_str()).unwrap()
    }

    fn command(&self) -> (r: String)
        requires
            self.wf(),
            self.busy(),
        ensures
            self.skill().run == Some(r@),
    {
        let skill = self.current_skill();
        match &skill.run {
            Some(command) => command.clone(),
            None => String::new(),
        }
    }

    /// Goes on to the next executable mention, or to the end. A skill of the
    /// user's own runs at once; one of the project is checked for trust.
    pub fn next(&mut self) -> (r: SkillAction)
        requires
            old(self).wf(),
            old(self).phase() == SkillPhase::Scanning,
        ensures
            final(self).wf(),
            final(self).registry_spec() == old(self).registry_spec(),
            final(self).text_spec() == old(self).text_spec(),
            final(self).outcomes() == old(self).outcomes(),
            match next_executable(old(self).rest(), old(self).skills()) {
                None => {
                    &&& final(self).phase() == SkillPhase::Finished
                    &&& r matches SkillAction::Finished(out) && out@ == resolved(
                        old(self).text_spec(),
                        old(self).skills(),
                        old(self).outcomes(),
                    )
                },
                Some(name) => {
                    &&& final(self).current() == name
                    &&& final(self).rest() == behind_executable(old(self).rest(), old(self).skills())
                    &&& match final(self).skill().scope {
                        SkillScope::User => {
                            &&& final(self).phase() == SkillPhase::Running
                            &&& r matches SkillAction::Run { command }
                                && final(self).skill().run == Some(command@)
                        },
                        SkillScope::Project => {
                            &&& final(self).phase() == SkillPhase::CheckingTrust
                            &&& r matches SkillAction::CheckTrust { path, hash } && path@
                                == final(self).skill().path && hash@ == skill_trust::content_hash(
                                final(self).skill().contents,
                            )
                        },
                    }
                },
            },
    {
        let ghost skills = self.skills();
        let ghost text0 = self.text@;
        let ghost done0 = self.done@;
        loop
            invariant
                self.wf(),
                self.phase == SkillPhase::Scanning,
                self.registry == old(self).registry,
                skills == self.skills(),
                text0 == self.text@,
                done0 == self.done@,
                text0 == old(self).text@,
                done0 == old(self).done@,
                skills == old(self).skills(),
                next_executable(old(self).rest(), skills) == next_executable(self.rest(), skills),
                behind_executable(old(self).rest(), skills) == behind_executable(
                    self.rest(),
                    skills,
                ),
            decreases self.chars.len() - self.pos,
        {
            let ghost rest = self.rest();
            let ghost before = self.output@;
            let registry: &'a CommandRegistry = self.registry;
            match scan_mention(&self.chars, self.pos) {
                None => {
                    let tail = string_of_range(&self.chars, self.pos, self.chars.len());
                    assert(tail@ =~= rest);
                    self.output.append(tail.as_str());
                    proof {
                        assert(done0 + Seq::<SkillOutcome>::empty() =~= done0);
                        assert(resolved(text0, skills, done0 + Seq::<SkillOutcome>::empty())
                            == before + resolved(rest, skills, Seq::empty()));
                    }
                    self.phase = SkillPhase::Finished;
                    return SkillAction::Finished(self.output.clone());
                },
                Some((at, name_at, end)) => {
                    let head = string_of_range(&self.chars, self.pos, at);
                    let name = string_of_range(&self.chars, name_at, end);
                    let ghost after = self.chars@.skip(end as int);
                    assert(first_mention(rest) == Some((head@, name@, after)));
                    self.output.append(head.as_str());
                    match registry.skills.get(name.as_str()) {
                        None => {
                            self.output.append("@skill:");
                            self.output.append(name.as_str());
                            self.pos = end;
                            proof {
                                reveal_strlit("@skill:");
                                assert("@skill:"@ =~= marker());
                                assert forall|more: Seq<SkillOutcome>|
                                    resolved(text0, skills, done0 + more) == self.output@
                                        + #[trigger] resolved(self.rest(), skills, more) by {
                                    assert(resolved(text0, skills, done0 + more) == before
                                        + resolved(rest, skills, more));
                                    assert(before + resolved(rest, skills, more) =~= self.output@
                                        + resolved(after, skills, more));
                                }
                            }
                        },
                        Some(skill) => {
                            assert(skills[name@] == skill@);
                            if skill.run.is_none() {
                                self.output.append(skill.contents.as_str());
                                self.pos = end;
                                proof {
                                    assert forall|more: Seq<SkillOutcome>|
                                        resolved(text0, skills, done0 + more) == self.output@
                                            + #[trigger] resolved(self.rest(), skills, more) by {
                                        assert(resolved(text0, skills, done0 + more) == before
                                            + resolved(rest, skills, more));
                                        assert(before + resolved(rest, skills, more)
                                            =~= self.output@ + resolved(after, skills, more));
                                    }
                                }
                            } else {
                                self.pos = end;
                                self.name = name;
                                let project = match skill.scope {
                                    SkillScope::User => false,
                                    SkillScope::Project => true,
                                };
                                self.phase = if project {
                                    SkillPhase::CheckingTrust
                                } else {
                                    SkillPhase::Running
                                };
                                proof {
                                    assert forall|o: SkillOutcome, more: Seq<SkillOutcome>|
                                        resolved(text0, skills, done0.push(o) + more)
                                            == self.output@ + #[trigger] outcome_text(name@, o)
                                            + #[trigger] resolved(self.rest(), skills, more) by {
                                        let with = seq![o] + more;
                                        assert(done0.push(o) + more =~= done0 + with);
                                        assert(with.skip(1) =~= more);
                                        assert(resolved(text0, skills, done0 + with) == before
                                            + resolved(rest, skills, with));
                                        assert(before + resolved(rest, skills, with)
                                            =~= self.output@ + outcome_text(name@, o) + resolved(
                                            after,
                                            skills,
                                            more,
                                        ));
                                    }
                                }
                                if project {
                                    let hash = hash_skill_contents(skill.contents.as_str());
                                    return SkillAction::CheckTrust {
                                        path: skill.path.clone(),
                                        hash,
                                    };
                                }
                                let command = self.command();
                                return SkillAction::Run { command };
                            }
                        },
                    }
                },
            }
        }
    }

    proof fn lemma_busy_keeps_wf(before: SkillResolver<'a>, now: SkillResolver<'a>)
        requires
            before.wf(),
            before.busy(),
            now.registry == before.registry,
            now.output == before.output,
            now.chars == before.chars,
            now.pos == before.pos,
            now.name == before.name,
            now.text == before.text,
            now.done == before.done,
            now.phase != SkillPhase::Scanning,
        ensures
            now.wf(),
            now.only_phase_changed(before),
    {
        assert(now.rest() == before.rest());
        assert(now.skills() == before.skills());
        assert forall|o: SkillOutcome, more: Seq<SkillOutcome>|
            resolved(now.text@, now.skills(), now.done@.push(o) + more) == now.output@
                + #[trigger] outcome_text(now.name@, o) + #[trigger] resolved(
                now.rest(),
                now.skills(),
                more,
            ) by {
            assert(resolved(before.text@, before.skills(), before.done@.push(o) + more)
                == before.output@ + outcome_text(before.name@, o) + resolved(
                before.rest(),
                before.skills(),
                more,
            ));
        }
    }

    /// Settles the current mention.
    fn settle(&mut self, written: &str, outcome: Ghost<SkillOutcome>)
        requires
            old(self).wf(),
            old(self).busy(),
            written@ == outcome_text(old(self).current(), outcome@),
        ensures
            final(self).wf(),
            final(self).settled(*old(self), outcome@),
    {
        let ghost before = *self;
        self.output.append(written);
        self.done = Ghost(self.done@.push(outcome@));
        self.phase = SkillPhase::Scanning;
        proof {
            let now = *self;
            assert(now.rest() == before.rest());
            assert(now.skills() == before.skills());
            assert forall|more: Seq<SkillOutcome>|
                resolved(now.text@, now.skills(), now.done@ + more) == now.output@
                    + #[trigger] resolved(now.rest(), now.skills(), more) by {
                assert(resolved(
                    before.text@,
                    before.skills(),
                    before.done@.push(outcome@) + more,
                ) == before.output@ + outcome_text(before.name@, outcome@) + resolved(
                    before.rest(),
                    before.skills(),
                    more,
                ));
            }
        }
    }

    /// Takes the answer whether these contents were approved before: then the
    /// command runs, else consent is asked for.
    pub fn on_trust(&mut self, trusted: bool) -> (r: SkillAction)
        requires
            old(self).wf(),
            old(self).phase() == SkillPhase::CheckingTrust,
        ensures
            final(self).wf(),
            final(self).only_phase_changed(*old(self)),
            final(self).phase() == gate(GateEvent::Trust(trusted)),
            trusted ==> (r matches SkillAction::Run { command } && old(self).skill().run == Some(
                command@,
            )),
            !trusted ==> (r matches SkillAction::AskConsent(q) && old(self).skill().run == Some(
                q.command@,
            ) && q.skill_path@ == old(self).skill().path && q.scope == old(self).skill().scope
                && q.name@ == old(self).current() && q.hash@ == skill_trust::content_hash(
                old(self).skill().contents,
            )),
    {
        let ghost before = *self;
        let command = self.command();
        if trusted {
            self.phase = SkillPhase::Running;
            proof {
                Self::lemma_busy_keeps_wf(before, *self);
            }
            SkillAction::Run { command }
        } else {
            let skill = self.current_skill();
            let request = SkillConsentRequest {
                command,
                skill_path: skill.path.clone(),
                scope: skill.scope,
                name: self.name.clone(),
                hash: hash_skill_contents(skill.contents.as_str()),
            };
            self.phase = SkillPhase::AskingConsent;
            proof {
                Self::lemma_busy_keeps_wf(before, *self);
            }
            SkillAction::AskConsent(request)
        }
    }

    /// Takes the answer to the request for consent. A refusal leaves a notice
    /// in place of the mention.
    pub fn on_consent(&mut self, outcome: ConsentOutcome) -> (r: SkillAction)
        requires
            old(self).wf(),
            old(self).phase() == SkillPhase::AskingConsent,
        ensures
            final(self).wf(),
            final(self).phase() == gate(GateEvent::Consent(outcome)),
            match outcome {
                ConsentOutcome::ApproveAndPersist => {
                    &&& final(self).only_phase_changed(*old(self))
                    &&& r matches SkillAction::Record { path, hash } && path@
                        == old(self).skill().path && hash@ == skill_trust::content_hash(
                        old(self).skill().contents,
                    )
                },
                ConsentOutcome::ApproveWithoutPersisting => {
                    &&& final(self).only_phase_changed(*old(self))
                    &&& r matches SkillAction::Run { command } && old(self).skill().run == Some(
                        command@,
                    )
                },
                ConsentOutcome::Decline => {
                    &&& final(self).settled(*old(self), SkillOutcome::Declined)
                    &&& r is Continue
                },
            },
    {
        let ghost before = *self;
        match outcome {
            ConsentOutcome::ApproveAndPersist => {
                let skill = self.current_skill();
                let action = SkillAction::Record {
                    path: skill.path.clone(),
                    hash: hash_skill_contents(skill.contents.as_str()),
                };
                self.phase = SkillPhase::Recording;
                proof {
                    Self::lemma_busy_keeps_wf(before, *self);
                }
                action
            },
            ConsentOutcome::ApproveWithoutPersisting => {
                let command = self.command();
                self.phase = SkillPhase::Running;
                proof {
                    Self::lemma_busy_keeps_wf(before, *self);
                }
                SkillAction::Run { command }
            },
            ConsentOutcome::Decline => {
                let mut note = "[skill '".to_owned();
                note.append(self.name.as_str());
                note.append("' not executed]");
                self.settle(note.as_str(), Ghost(SkillOutcome::Declined));
                SkillAction::Continue
            },
        }
    }

    /// Takes the answer whether the approval was recorded. If it was not, the
    /// command does not run and the whole text fails.
    pub fn on_recorded(&mut self, recorded: Result<(), String>) -> (r: SkillAction)
        requires
            old(self).wf(),
            old(self).phase() == SkillPhase::Recording,
        ensures
            final(self).wf(),
            final(self).only_phase_changed(*old(self)),
            final(self).phase() == gate(GateEvent::Recorded(recorded is Ok)),
            match recorded {
                Ok(_) => r matches SkillAction::Run { command } && old(self).skill().run == Some(
                    command@,
                ),
                Err(e) => r matches SkillAction::Failed(m) && m@ == e@,
            },
    {
        let ghost before = *self;
        match recorded {
            Ok(_) => {
                let command = self.command();
                self.phase = SkillPhase::Running;
                proof {
                    Self::lemma_busy_keeps_wf(before, *self);
                }
                SkillAction::Run { command }
            },
            Err(message) => {
                self.phase = SkillPhase::Failed;
                proof {
                    Self::lemma_busy_keeps_wf(before, *self);
                }
                SkillAction::Failed(message)
            },
        }
    }

    /// Takes what came of the command: what it printed, without the line feeds
    /// at its end, or its error, stands in place of the mention.
    pub fn on_run(&mut self, result: Result<String, String>) -> (r: SkillAction)
        requires
            old(self).wf(),
            old(self).phase() == SkillPhase::Running,
        ensures
            final(self).wf(),
            final(self).settled(
                *old(self),
                match result {
                    Ok(stdout) => SkillOutcome::Ran(stdout@),
                    Err(e) => SkillOutcome::Failed(e@),
                },
            ),
            r is Continue,
    {
        match result {
            Ok(stdout) => {
                let written = trimmed_end_char(stdout.as_str(), '\n');
                self.settle(written.as_str(), Ghost(SkillOutcome::Ran(stdout@)));
            },
            Err(message) => {
                let mut note = "[skill '".to_owned();
                note.append(self.name.as_str());
                note.append("' run command failed: ");
                note.append(message.as_str());
                note.append("]");
                self.settle(note.as_str(), Ghost(SkillOutcome::Failed(message@)));
            },
        }
        SkillAction::Continue
    }
}

// ---------------------------------------------------------------------------
// Laws
// ---------------------------------------------------------------------------

/// A project's skill runs only if its contents were approved before, or
/// consent has just been given, and given for good only once that is recorded.
pub proof fn law_project_skills_need_trust_or_consent(e: GateEvent)
    requires
        gate(e) == SkillPhase::Running,
    ensures
        e == GateEvent::Trust(true) || e == GateEvent::Consent(
            ConsentOutcome::ApproveWithoutPersisting,
        ) || e == GateEvent::Recorded(true),
{
}

/// Only consent given for good leads to an approval being recorded.
pub proof fn law_only_lasting_consent_is_recorded(e: GateEvent)
    requires
        gate(e) == SkillPhase::Recording,
    ensures
        e == GateEvent::Consent(ConsentOutcome::ApproveAndPersist),
{
}

/// What runs is what was shown: from the request for consent to the run, the
/// skill and its command stay the same.
pub proof fn law_what_runs_is_what_was_shown<'a>(
    asking: SkillResolver<'a>,
    running: SkillResolver<'a>,
    shown: Seq<char>,
    run: Seq<char>,
)
    requires
        running.only_phase_changed(asking),
        asking.skill().run == Some(shown),
        running.skill().run == Some(run),
    ensures
        run == shown,
        running.current() == asking.current(),
        running.skill() == asking.skill(),
{
}

/// A text that mentions no skill is left as it is.
pub proof fn law_texts_without_mentions_are_untouched(
    s: Seq<char>,
    skills: Map<Seq<char>, SkillModel>,
    outcomes: Seq<SkillOutcome>,
)
    requires
        !text::contains(s, marker()),
    ensures
        inlined(s, skills) == s,
        resolved(s, skills, outcomes) == s,
        next_executable(s, skills) is None,
{
    text::lemma_find_contains(s, marker());
}

/// Where no executable skill is mentioned, resolving with consent does what
/// inlining inert skills does, and asks nobody.
pub proof fn law_inert_mentions_need_no_consent(
    s: Seq<char>,
    skills: Map<Seq<char>, SkillModel>,
    outcomes: Seq<SkillOutcome>,
)
    requires
        next_executable(s, skills) is None,
    ensures
        resolved(s, skills, outcomes) == inlined(s, skills),
    decreases s.len(),
{
    if let Some((head, name, tail)) = first_mention(s) {
        lemma_first_mention(s);
        law_inert_mentions_need_no_consent(tail, skills, outcomes);
    }
}

/// A file without front matter is a command whose template is the whole file,
/// and an inert skill.
pub proof fn law_plain_files_are_inert(contents: Seq<char>)
    requires
        front_matter(contents) is None,
    ensures
        command_of(contents).template == contents,
        run_of(contents) is None,
{
}

/// A line is cut at its first colon: the value is everything behind it, whatever
/// colons it holds, and a line without a colon says nothing.
pub proof fn law_lines_are_cut_at_their_first_colon(k: Seq<char>, v: Seq<char>)
    requires
        !k.contains(':'),
    ensures
        key_value(k + seq![':'] + v) == Some((text::trim(k), text::trim(v))),
        key_value(k) is None,
{
    text::law_splitting_is_at_the_first(k, ':', v);
}

/// The white space around a key and around its value does not belong to them, and
/// all that is between belongs to them.
pub proof fn law_white_space_around_keys_and_values_goes(
    a: Seq<char>,
    k: Seq<char>,
    b: Seq<char>,
    c: Seq<char>,
    v: Seq<char>,
    d: Seq<char>,
)
    requires
        forall|i: int| 0 <= i < a.len() ==> text::white(#[trigger] a[i]),
        forall|i: int| 0 <= i < b.len() ==> text::white(#[trigger] b[i]),
        forall|i: int| 0 <= i < c.len() ==> text::white(#[trigger] c[i]),
        forall|i: int| 0 <= i < d.len() ==> text::white(#[trigger] d[i]),
        k.len() > 0 ==> !text::white(k[0]) && !text::white(k.last()),
        v.len() > 0 ==> !text::white(v[0]) && !text::white(v.last()),
        !(a + k + b).contains(':'),
    ensures
        key_value((a + k + b) + seq![':'] + (c + v + d)) == Some((k, v)),
{
    law_lines_are_cut_at_their_first_colon(a + k + b, c + v + d);
    text::law_trimming_keeps_what_is_between(a, k, b);
    text::law_trimming_keeps_what_is_between(c, v, d);
}

/// Front matter is what stands between an opening line of three dashes and the
/// first line after it that begins with three dashes. What follows, but for one
/// line feed, is the body.
pub proof fn law_front_matter_stands_between_dashes(front: Seq<char>, body: Seq<char>)
    requires
        forall|i: int|
            0 <= i && i + 4 <= front.len() ==> #[trigger] front.subrange(i, i + 4) != "\n---"@,
    ensures
        front_matter("---\n"@ + front + "\n---\n"@ + body) == Some((front, body)),
        body.len() == 0 || body[0] != '\n' ==> front_matter("---\n"@ + front + "\n---"@ + body)
            == Some((front, body)),
{
    reveal_strlit("\n---");
    reveal_strlit("\n---\n");
    lemma_front_matter(front, seq!['\n'] + body);
    assert((seq!['\n'] + body).skip(1) =~= body);
    assert("---\n"@ + front + "\n---\n"@ + body =~= "---\n"@ + front + "\n---"@ + (seq!['\n']
        + body));
    lemma_front_matter(front, body);
}

proof fn lemma_front_matter(front: Seq<char>, after: Seq<char>)
    requires
        forall|i: int|
            0 <= i && i + 4 <= front.len() ==> #[trigger] front.subrange(i, i + 4) != "\n---"@,
    ensures
        front_matter("---\n"@ + front + "\n---"@ + after) == Some(
            (
                front,
                if after.len() > 0 && after[0] == '\n' {
                    after.skip(1)
                } else {
                    after
                },
            ),
        ),
{
    let mark = "\n---"@;
    let rest = front + mark + after;
    assert("---\n"@ + front + mark + after =~= "---\n"@ + rest);
    text::law_prefixes_come_off_where_they_stand(rest, "---\n"@, rest);
    assert(mark.len() == 4 && forall|j: int| 0 < j < 4 ==> #[trigger] mark[j] != mark[0]) by {
        reveal_strlit("\n---");
    }
    lemma_found_at_the_first(front, mark, after);
}

/// Only a file that opens with a line of three dashes, and holds another such
/// line further on, has front matter; and nothing of the file is lost.
pub proof fn law_front_matter_and_body_make_the_file(contents: Seq<char>)
    ensures
        match front_matter(contents) {
            Some((front, body)) => contents == "---\n"@ + front + "\n---\n"@ + body || contents
                == "---\n"@ + front + "\n---"@ + body,
            None => forall|front: Seq<char>, body: Seq<char>|
                contents != #[trigger] ("---\n"@ + front + "\n---"@ + body),
        },
{
    reveal_strlit("\n---");
    reveal_strlit("\n---\n");
    let mark = "\n---"@;
    match front_matter(contents) {
        Some((front, body)) => {
            let rest = text::strip_prefix(contents, "---\n"@)->0;
            text::law_prefixes_come_off_where_they_stand(contents, "---\n"@, rest);
            text::lemma_find_from(rest, mark, 0);
            let k = text::find(rest, mark)->0;
            let after = rest.skip(k + 4);
            assert(rest.subrange(k, k + 4) == mark);
            assert(rest =~= front + mark + after);
            if after.len() > 0 && after[0] == '\n' {
                assert(after =~= seq!['\n'] + body);
                assert(contents =~= "---\n"@ + front + "\n---\n"@ + body);
            } else {
                assert(contents =~= "---\n"@ + front + mark + body);
            }
        },
        None => {
            assert forall|front: Seq<char>, body: Seq<char>|
                contents != #[trigger] ("---\n"@ + front + mark + body) by {
                if contents == "---\n"@ + front + mark + body {
                    let rest = front + mark + body;
                    assert(contents =~= "---\n"@ + rest);
                    text::law_prefixes_come_off_where_they_stand(rest, "---\n"@, rest);
                    text::lemma_find_from(rest, mark, 0);
                    let n = front.len() as int;
                    assert(rest.subrange(n, n + 4) =~= mark);
                    assert(text::occurs_at(rest, mark, n));
                }
            }
        },
    }
}

/// A file whose front matter is the one line `k:v` gives the value `v` under the
/// key `k`, both without the white space around them, whatever colons `v` holds;
/// and nothing under another key. What follows the front matter is the template.
pub proof fn law_a_line_gives_its_whole_value(k: Seq<char>, v: Seq<char>, body: Seq<char>)
    requires
        !k.contains(':'),
        !k.contains('\n'),
        !v.contains('\n'),
    ensures
        ({
            let contents = "---\n"@ + (k + seq![':'] + v) + "\n---\n"@ + body;
            let value = Some(text::trim(v));
            let command = command_of(contents);
            &&& command.template == body
            &&& command.description == if text::trim(k) == "description"@ {
                value
            } else {
                None
            }
            &&& command.argument_hint == if text::trim(k) == "argument-hint"@ {
                value
            } else {
                None
            }
            &&& command.agent == if text::trim(k) == "agent"@ {
                value
            } else {
                None
            }
            &&& run_of(contents) == if text::trim(k) == "run"@ && text::trim(v).len() > 0 {
                value
            } else {
                None
            }
        }),
{
    let line = k + seq![':'] + v;
    reveal_strlit("\n---");
    assert(!line.contains('\n')) by {
        if line.contains('\n') {
            let i = choose|i: int| 0 <= i < line.len() && line[i] == '\n';
            if i < k.len() {
                assert(k[i] == '\n');
            } else if i > k.len() {
                assert(v[i - k.len() - 1] == '\n');
            }
        }
    }
    assert forall|i: int| 0 <= i && i + 4 <= line.len() implies #[trigger] line.subrange(i, i + 4)
        != "\n---"@ by {
        if line.subrange(i, i + 4) == "\n---"@ {
            assert(line.subrange(i, i + 4)[0] == line[i]);
            assert(line.contains(line[i]));
        }
    }
    law_front_matter_stands_between_dashes(line, body);
    text::law_line_feeds_end_lines(line, line);
    law_lines_are_cut_at_their_first_colon(k, v);
    let ls = seq![line];
    assert(ls.last() == line);
    assert(ls.drop_last() =~= Seq::<Seq<char>>::empty());
    assert(ls.skip(1) =~= Seq::<Seq<char>>::empty());
    reveal_with_fuel(last_value, 2);
    reveal_with_fuel(first_value, 2);
}

/// Of several lines with one key, the last one counts in a command file, however
/// many lines there are.
pub proof fn law_the_last_line_of_a_key_counts(ls: Seq<Seq<char>>, key: Seq<char>)
    ensures
        match last_value(ls, key) {
            Some(v) => exists|i: int|
                0 <= i < ls.len() && key_value(#[trigger] ls[i]) == Some((key, v)) && forall|j: int|
                    i < j < ls.len() ==> (key_value(#[trigger] ls[j]) matches Some((k, _))
                        ==> k != key),
            None => forall|j: int|
                0 <= j < ls.len() ==> (key_value(#[trigger] ls[j]) matches Some((k, _)) ==> k
                    != key),
        },
    decreases ls.len(),
{
    if ls.len() > 0 {
        let init = ls.drop_last();
        let n = ls.len() - 1;
        law_the_last_line_of_a_key_counts(init, key);
        assert(forall|j: int| 0 <= j < n ==> ls[j] == init[j]);
        let here = key_value(ls[n]) matches Some((k, _)) && k == key;
        if here {
            assert(key_value(ls[n]) == Some((key, last_value(ls, key)->0)));
        } else {
            if let Some(v) = last_value(init, key) {
                let i = choose|i: int|
                    0 <= i < init.len() && key_value(#[trigger] init[i]) == Some((key, v))
                        && forall|j: int|
                        i < j < init.len() ==> (key_value(#[trigger] init[j]) matches Some((k, _))
                            ==> k != key);
                assert(key_value(ls[i]) == Some((key, v)));
                assert forall|j: int| i < j < ls.len() implies (key_value(
                    #[trigger] ls[j],
                ) matches Some((k, _)) ==> k != key) by {
                    if j < n {
                        assert(ls[j] == init[j]);
                    }
                }
            } else {
                assert forall|j: int| 0 <= j < ls.len() implies (key_value(
                    #[trigger] ls[j],
                ) matches Some((k, _)) ==> k != key) by {
                    if j < n {
                        assert(ls[j] == init[j]);
                    }
                }
            }
        }
    }
}

/// Of several lines with one key, the first one counts in a skill file, however
/// many lines there are.
pub proof fn law_the_first_line_of_a_key_counts(ls: Seq<Seq<char>>, key: Seq<char>)
    ensures
        match first_value(ls, key) {
            Some(v) => exists|i: int|
                0 <= i < ls.len() && key_value(#[trigger] ls[i]) == Some((key, v)) && forall|j: int|
                    0 <= j < i ==> (key_value(#[trigger] ls[j]) matches Some((k, _)) ==> k != key),
            None => forall|j: int|
                0 <= j < ls.len() ==> (key_value(#[trigger] ls[j]) matches Some((k, _)) ==> k
                    != key),
        },
    decreases ls.len(),
{
    if ls.len() > 0 {
        let tail = ls.skip(1);
        law_the_first_line_of_a_key_counts(tail, key);
        assert(forall|j: int| 0 < j < ls.len() ==> ls[j] == tail[j - 1]);
        let here = key_value(ls[0]) matches Some((k, _)) && k == key;
        if here {
            assert(key_value(ls[0]) == Some((key, first_value(ls, key)->0)));
        } else {
            if let Some(v) = first_value(tail, key) {
                let i = choose|i: int|
                    0 <= i < tail.len() && key_value(#[trigger] tail[i]) == Some((key, v))
                        && forall|j: int|
                        0 <= j < i ==> (key_value(#[trigger] tail[j]) matches Some((k, _)) ==> k
                            != key);
                assert(ls[i + 1] == tail[i]);
                assert forall|j: int| 0 <= j < i + 1 implies (key_value(
                    #[trigger] ls[j],
                ) matches Some((k, _)) ==> k != key) by {
                    if j > 0 {
                        assert(ls[j] == tail[j - 1]);
                    }
                }
            } else {
                assert forall|j: int| 0 <= j < ls.len() implies (key_value(
                    #[trigger] ls[j],
                ) matches Some((k, _)) ==> k != key) by {
                    if j > 0 {
                        assert(ls[j] == tail[j - 1]);
                    }
                }
            }
        }
    }
}

/// Every line of the front matter is looked at: whatever else the file says, a
/// line `k:v` counts for a command unless a later line has the same key, and for
/// a skill's command unless an earlier one does.
pub proof fn law_every_line_of_the_front_matter_counts(
    front: Seq<char>,
    body: Seq<char>,
    i: int,
    k: Seq<char>,
    v: Seq<char>,
)
    requires
        forall|j: int|
            0 <= j && j + 4 <= front.len() ==> #[trigger] front.subrange(j, j + 4) != "\n---"@,
        0 <= i < text::lines(front).len(),
        text::lines(front)[i] == k + seq![':'] + v,
        !k.contains(':'),
    ensures
        ({
            let contents = "---\n"@ + front + "\n---\n"@ + body;
            let ls = text::lines(front);
            let last = forall|j: int|
                i < j < ls.len() ==> (key_value(#[trigger] ls[j]) matches Some((o, _)) ==> o
                    != text::trim(k));
            let first = forall|j: int|
                0 <= j < i ==> (key_value(#[trigger] ls[j]) matches Some((o, _)) ==> o
                    != text::trim(k));
            let value = Some(text::trim(v));
            &&& command_of(contents).template == body
            &&& last && text::trim(k) == "description"@ ==> command_of(contents).description
                == value
            &&& last && text::trim(k) == "argument-hint"@ ==> command_of(contents).argument_hint
                == value
            &&& last && text::trim(k) == "agent"@ ==> command_of(contents).agent == value
            &&& first && text::trim(k) == "run"@ && text::trim(v).len() > 0 ==> run_of(contents)
                == value
        }),
{
    law_front_matter_stands_between_dashes(front, body);
    law_lines_are_cut_at_their_first_colon(k, v);
    let ls = text::lines(front);
    let key = text::trim(k);
    assert(key_value(ls[i]) == Some((key, text::trim(v))));
    law_the_last_line_of_a_key_counts(ls, key);
    law_the_first_line_of_a_key_counts(ls, key);
    let last = forall|j: int|
        i < j < ls.len() ==> (key_value(#[trigger] ls[j]) matches Some((o, _)) ==> o != key);
    let first = forall|j: int|
        0 <= j < i ==> (key_value(#[trigger] ls[j]) matches Some((o, _)) ==> o != key);
    if last {
        match last_value(ls, key) {
            Some(w) => {
                let m = choose|m: int|
                    0 <= m < ls.len() && key_value(#[trigger] ls[m]) == Some((key, w))
                        && forall|j: int|
                        m < j < ls.len() ==> (key_value(#[trigger] ls[j]) matches Some((o, _))
                            ==> o != key);
                assert(m == i);
            },
            None => {},
        }
    }
    if first {
        match first_value(ls, key) {
            Some(w) => {
                let m = choose|m: int|
                    0 <= m < ls.len() && key_value(#[trigger] ls[m]) == Some((key, w))
                        && forall|j: int|
                        0 <= j < m ==> (key_value(#[trigger] ls[j]) matches Some((o, _)) ==> o
                            != key);
                assert(m == i);
            },
            None => {},
        }
    }
}

/// A mention is `@skill:` and every letter, digit, underscore and dash that
/// follows it; what stands before the first mention and what stands behind its
/// name are all of the rest.
pub proof fn law_a_mention_is_the_marker_and_a_name(
    head: Seq<char>,
    name: Seq<char>,
    tail: Seq<char>,
)
    requires
        forall|i: int|
            0 <= i && i + 7 <= head.len() ==> #[trigger] head.subrange(i, i + 7) != "@skill:"@,
        forall|i: int|
            0 <= i < name.len() ==> ('0' <= #[trigger] name[i] <= '9' || 'A' <= name[i] <= 'Z' || 'a'
                <= name[i] <= 'z' || name[i] == '_' || name[i] == '-'),
        tail.len() > 0 ==> !('0' <= tail[0] <= '9' || 'A' <= tail[0] <= 'Z' || 'a' <= tail[0]
            <= 'z' || tail[0] == '_' || tail[0] == '-'),
    ensures
        first_mention(head + "@skill:"@ + name + tail) == Some((head, name, tail)),
{
    let s = head + "@skill:"@ + name + tail;
    let after = name + tail;
    assert(s =~= head + "@skill:"@ + after);
    lemma_the_first_marker(head, after);
    assert forall|i: int| 0 <= i < name.len() implies name_char(#[trigger] name[i]) by {}
    lemma_name_runs(name, tail);
    assert(after.take(name.len() as int) =~= name);
    assert(after.skip(name.len() as int) =~= tail);
}

proof fn lemma_the_first_marker(head: Seq<char>, after: Seq<char>)
    requires
        forall|i: int|
            0 <= i && i + 7 <= head.len() ==> #[trigger] head.subrange(i, i + 7) != "@skill:"@,
    ensures
        text::find(head + "@skill:"@ + after, marker()) == Some(head.len() as int),
        marker().len() == 7,
        (head + "@skill:"@ + after).take(head.len() as int) == head,
        (head + "@skill:"@ + after).skip(head.len() as int + 7) == after,
{
    assert("@skill:"@ == marker()) by {
        reveal_strlit("@skill:");
        assert("@skill:"@ =~= marker());
    }
    assert(forall|j: int| 0 < j < 7 ==> marker()[j] != '@');
    lemma_found_at_the_first(head, marker(), after);
}

/// A text whose first character it holds nowhere else is found where it stands
/// first.
proof fn lemma_found_at_the_first(head: Seq<char>, mark: Seq<char>, after: Seq<char>)
    requires
        mark.len() > 0,
        forall|j: int| 0 < j < mark.len() ==> #[trigger] mark[j] != mark[0],
        forall|i: int|
            0 <= i && i + mark.len() <= head.len() ==> #[trigger] head.subrange(
                i,
                i + mark.len(),
            ) != mark,
    ensures
        text::find(head + mark + after, mark) == Some(head.len() as int),
        (head + mark + after).take(head.len() as int) == head,
        (head + mark + after).skip(head.len() + mark.len() as int) == after,
{
    let s = head + mark + after;
    let n = head.len() as int;
    let m = mark.len() as int;
    text::lemma_find_from(s, mark, 0);
    assert(s.subrange(n, n + m) =~= mark);
    assert(text::occurs_at(s, mark, n));
    let k = text::find(s, mark)->0;
    if k < n {
        let part = s.subrange(k, k + m);
        assert(part == mark);
        if k + m <= n {
            assert(head.subrange(k, k + m) =~= part);
        } else {
            assert(part[n - k] == s[n]);
            assert(s[n] == mark[0]);
        }
        assert(false);
    }
    assert(s.take(n) =~= head);
    assert(s.skip(n + m) =~= after);
}

proof fn lemma_name_runs(name: Seq<char>, tail: Seq<char>)
    requires
        forall|i: int| 0 <= i < name.len() ==> name_char(#[trigger] name[i]),
        tail.len() > 0 ==> !name_char(tail[0]),
    ensures
        name_len(name + tail) == name.len(),
    decreases name.len(),
{
    let s = name + tail;
    if name.len() > 0 {
        assert(s[0] == name[0]);
        assert(s.skip(1) =~= name.skip(1) + tail);
        lemma_name_runs(name.skip(1), tail);
    } else {
        assert(s =~= tail);
    }
}

/// A mention of an inert skill is replaced by that skill's contents, whole and
/// unchanged, and any other mention stays as it is; what stands around it is
/// kept, and the rest of the text is treated in the same way.
pub proof fn law_mentions_are_replaced_one_by_one(
    head: Seq<char>,
    name: Seq<char>,
    tail: Seq<char>,
    skills: Map<Seq<char>, SkillModel>,
)
    requires
        forall|i: int|
            0 <= i && i + 7 <= head.len() ==> #[trigger] head.subrange(i, i + 7) != "@skill:"@,
        forall|i: int|
            0 <= i < name.len() ==> ('0' <= #[trigger] name[i] <= '9' || 'A' <= name[i] <= 'Z' || 'a'
                <= name[i] <= 'z' || name[i] == '_' || name[i] == '-'),
        tail.len() > 0 ==> !('0' <= tail[0] <= '9' || 'A' <= tail[0] <= 'Z' || 'a' <= tail[0]
            <= 'z' || tail[0] == '_' || tail[0] == '-'),
    ensures
        ({
            let s = head + "@skill:"@ + name + tail;
            &&& skills.contains_key(name) && skills[name].run is None ==> inlined(s, skills) == head
                + skills[name].contents + inlined(tail, skills)
            &&& !skills.contains_key(name) || skills[name].run is Some ==> inlined(s, skills)
                == head + "@skill:"@ + name + inlined(tail, skills)
            &&& inlined(head, skills) == head
        }),
{
    reveal_strlit("@skill:");
    assert("@skill:"@ =~= marker());
    law_a_mention_is_the_marker_and_a_name(head, name, tail);
    assert(head + (marker() + name) + inlined(tail, skills) =~= head + "@skill:"@ + name + inlined(
        tail,
        skills,
    ));
    text::lemma_find_from(head, marker(), 0);
}

/// With consent, a mention of an executable skill is replaced by what came of
/// it: what its command printed without the line feeds at the end, a notice that
/// it was not executed, or its error. An inert skill still gives its contents,
/// and an unknown one stays. Each outcome is used for one mention, in order.
pub proof fn law_executable_mentions_give_their_outcomes(
    head: Seq<char>,
    name: Seq<char>,
    tail: Seq<char>,
    skills: Map<Seq<char>, SkillModel>,
    outcome: SkillOutcome,
    others: Seq<SkillOutcome>,
)
    requires
        forall|i: int|
            0 <= i && i + 7 <= head.len() ==> #[trigger] head.subrange(i, i + 7) != "@skill:"@,
        forall|i: int|
            0 <= i < name.len() ==> ('0' <= #[trigger] name[i] <= '9' || 'A' <= name[i] <= 'Z' || 'a'
                <= name[i] <= 'z' || name[i] == '_' || name[i] == '-'),
        tail.len() > 0 ==> !('0' <= tail[0] <= '9' || 'A' <= tail[0] <= 'Z' || 'a' <= tail[0]
            <= 'z' || tail[0] == '_' || tail[0] == '-'),
    ensures
        ({
            let s = head + "@skill:"@ + name + tail;
            let all = seq![outcome] + others;
            if !skills.contains_key(name) {
                &&& resolved(s, skills, all) == head + "@skill:"@ + name + resolved(
                    tail,
                    skills,
                    all,
                )
                &&& next_executable(s, skills) == next_executable(tail, skills)
                &&& behind_executable(s, skills) == behind_executable(tail, skills)
            } else if skills[name].run is None {
                &&& resolved(s, skills, all) == head + skills[name].contents + resolved(
                    tail,
                    skills,
                    all,
                )
                &&& next_executable(s, skills) == next_executable(tail, skills)
                &&& behind_executable(s, skills) == behind_executable(tail, skills)
            } else {
                &&& next_executable(s, skills) == Some(name)
                &&& behind_executable(s, skills) == tail
                &&& outcome is Declined ==> resolved(s, skills, all) == head + "[skill '"@ + name
                    + "' not executed]"@ + resolved(tail, skills, others)
                &&& outcome matches SkillOutcome::Failed(e) ==> resolved(s, skills, all) == head
                    + "[skill '"@ + name + "' run command failed: "@ + e + "]"@ + resolved(
                    tail,
                    skills,
                    others,
                )
                &&& outcome matches SkillOutcome::Ran(out) ==> exists|n: int|
                    0 <= n <= out.len() && resolved(s, skills, all) == head + #[trigger] out.take(n)
                        + resolved(tail, skills, others) && (n > 0 ==> out[n - 1] != '\n')
                        && forall|i: int| n <= i < out.len() ==> #[trigger] out[i] == '\n'
            }
        }),
{
    reveal_strlit("@skill:");
    assert("@skill:"@ =~= marker());
    law_a_mention_is_the_marker_and_a_name(head, name, tail);
    let s = head + "@skill:"@ + name + tail;
    let all = seq![outcome] + others;
    assert(all[0] == outcome);
    assert(all.skip(1) =~= others);
    let more = resolved(tail, skills, others);
    if !skills.contains_key(name) {
        assert(resolved(s, skills, all) =~= head + "@skill:"@ + name + resolved(tail, skills, all));
    } else if skills[name].run is Some {
        match outcome {
            SkillOutcome::Declined => {
                assert(resolved(s, skills, all) =~= head + "[skill '"@ + name + "' not executed]"@
                    + more);
            },
            SkillOutcome::Failed(e) => {
                assert(resolved(s, skills, all) =~= head + "[skill '"@ + name
                    + "' run command failed: "@ + e + "]"@ + more);
            },
            SkillOutcome::Ran(out) => {
                text::law_one_character_is_trimmed_off_the_end(out, '\n');
                let n = choose|n: int|
                    0 <= n <= out.len() && #[trigger] out.take(n) == text::trim_end_char(
                        out,
                        '\n',
                    ) && (n > 0 ==> out[n - 1] != '\n') && forall|i: int|
                        n <= i < out.len() ==> #[trigger] out[i] == '\n';
                assert(resolved(s, skills, all) == head + out.take(n) + more);
            },
        }
    }
}

/// Every markdown file that could be read is a command under its name without the
/// extension, unless a later file has the same name, and nothing else is one.
pub proof fn law_every_readable_file_is_a_command(files: Seq<DirFile>, stem: Seq<char>)
    requires
        stem.len() > 0,
    ensures
        forall|i: int|
            0 <= i < files.len() && (#[trigger] files[i]).name@ == stem + ".md"@
                && files[i].contents is Some && (forall|j: int|
                i < j < files.len() && (#[trigger] files[j]).name@ == stem + ".md"@
                    ==> files[j].contents is None) ==> commands_in(files).contains_key(stem)
                && commands_in(files)[stem] == command_of(files[i].contents->0@),
        (forall|i: int|
            0 <= i < files.len() && (#[trigger] files[i]).name@ == stem + ".md"@
                ==> files[i].contents is None) ==> !commands_in(files).contains_key(stem),
    decreases files.len(),
{
    if files.len() > 0 {
        let init = files.drop_last();
        let n = files.len() - 1;
        let f = files[n];
        law_every_readable_file_is_a_command(init, stem);
        text::law_endings_come_off_where_they_stand(f.name@, stem, ".md"@);
        assert(forall|j: int| 0 <= j < n ==> init[j] == files[j]);
        assert forall|i: int|
            0 <= i < files.len() && (#[trigger] files[i]).name@ == stem + ".md"@
                && files[i].contents is Some && (forall|j: int|
                i < j < files.len() && (#[trigger] files[j]).name@ == stem + ".md"@
                    ==> files[j].contents is None) implies commands_in(files).contains_key(stem)
            && commands_in(files)[stem] == command_of(files[i].contents->0@) by {
            if i < n {
                assert(init[i] == files[i]);
                assert forall|j: int|
                    i < j < init.len() && (#[trigger] init[j]).name@ == stem
                        + ".md"@ implies init[j].contents is None by {
                    assert(files[j] == init[j]);
                }
                assert(files[n].name@ == stem + ".md"@ ==> files[n].contents is None);
            }
        }
        if forall|i: int|
            0 <= i < files.len() && (#[trigger] files[i]).name@ == stem + ".md"@
                ==> files[i].contents is None {
            assert forall|i: int|
                0 <= i < init.len() && (#[trigger] init[i]).name@ == stem
                    + ".md"@ implies init[i].contents is None by {
                assert(files[i] == init[i]);
            }
            assert(files[n].name@ == stem + ".md"@ ==> files[n].contents is None);
        }
    }
}

/// Every markdown file that could be read is a skill under its name without the
/// extension, unless a later file has the same name, and nothing else is one. A
/// skill keeps its file's contents as they are, and knows its path and scope.
pub proof fn law_every_readable_file_is_a_skill(
    dir: Seq<char>,
    files: Seq<DirFile>,
    scope: SkillScope,
    stem: Seq<char>,
)
    requires
        stem.len() > 0,
    ensures
        forall|i: int|
            0 <= i < files.len() && (#[trigger] files[i]).name@ == stem + ".md"@
                && files[i].contents is Some && (forall|j: int|
                i < j < files.len() && (#[trigger] files[j]).name@ == stem + ".md"@
                    ==> files[j].contents is None) ==> {
                &&& skills_in(dir, files, scope).contains_key(stem)
                &&& skills_in(dir, files, scope)[stem].contents == files[i].contents->0@
                &&& skills_in(dir, files, scope)[stem].path == text::join_path(
                    dir,
                    stem + ".md"@,
                )
                &&& skills_in(dir, files, scope)[stem].run == run_of(files[i].contents->0@)
                &&& skills_in(dir, files, scope)[stem].scope == scope
            },
        (forall|i: int|
            0 <= i < files.len() && (#[trigger] files[i]).name@ == stem + ".md"@
                ==> files[i].contents is None) ==> !skills_in(dir, files, scope).contains_key(stem),
    decreases files.len(),
{
    if files.len() > 0 {
        let init = files.drop_last();
        let n = files.len() - 1;
        let f = files[n];
        law_every_readable_file_is_a_skill(dir, init, scope, stem);
        text::law_endings_come_off_where_they_stand(f.name@, stem, ".md"@);
        assert(forall|j: int| 0 <= j < n ==> init[j] == files[j]);
        assert forall|i: int|
            0 <= i < files.len() && (#[trigger] files[i]).name@ == stem + ".md"@
                && files[i].contents is Some && (forall|j: int|
                i < j < files.len() && (#[trigger] files[j]).name@ == stem + ".md"@
                    ==> files[j].contents is None) implies {
            &&& skills_in(dir, files, scope).contains_key(stem)
            &&& skills_in(dir, files, scope)[stem].contents == files[i].contents->0@
            &&& skills_in(dir, files, scope)[stem].path == text::join_path(dir, stem + ".md"@)
            &&& skills_in(dir, files, scope)[stem].run == run_of(files[i].contents->0@)
            &&& skills_in(dir, files, scope)[stem].scope == scope
        } by {
            if i < n {
                assert(init[i] == files[i]);
                assert forall|j: int|
                    i < j < init.len() && (#[trigger] init[j]).name@ == stem
                        + ".md"@ implies init[j].contents is None by {
                    assert(files[j] == init[j]);
                }
                assert(files[n].name@ == stem + ".md"@ ==> files[n].contents is None);
            }
        }
        if forall|i: int|
            0 <= i < files.len() && (#[trigger] files[i]).name@ == stem + ".md"@
                ==> files[i].contents is None {
            assert forall|i: int|
                0 <= i < init.len() && (#[trigger] init[i]).name@ == stem
                    + ".md"@ implies init[i].contents is None by {
                assert(files[i] == init[i]);
            }
            assert(files[n].name@ == stem + ".md"@ ==> files[n].contents is None);
        }
    }
}

/// A slash command is a slash and a name up to white space. A known one expands to
/// its template with the rest of the line for arguments, the white space before
/// them taken off; an unknown one, or a text without a slash in front, is none.
pub proof fn law_known_slash_commands_expand(
    name: Seq<char>,
    c: char,
    args: Seq<char>,
    commands: Map<Seq<char>, CommandModel>,
    skills: Map<Seq<char>, SkillModel>,
)
    requires
        forall|k: int| 0 <= k < name.len() ==> !text::white(#[trigger] name[k]),
        text::white(c),
    ensures
        commands.contains_key(name) ==> expansion(
            seq!['/'] + name + seq![c] + args,
            commands,
            skills,
        ) == Some(inlined(fill(commands[name].template, text::trim_start(args)), skills)),
        commands.contains_key(name) ==> expansion(seq!['/'] + name, commands, skills) == Some(
            inlined(fill(commands[name].template, Seq::empty()), skills),
        ),
        !commands.contains_key(name) ==> expansion(
            seq!['/'] + name + seq![c] + args,
            commands,
            skills,
        ) is None && expansion(seq!['/'] + name, commands, skills) is None,
        args.len() == 0 || args[0] != '/' ==> expansion(args, commands, skills) is None,
{
    let long = seq!['/'] + name + seq![c] + args;
    let short = seq!['/'] + name;
    assert(long.skip(1) =~= name + seq![c] + args);
    assert(short.skip(1) =~= name);
    text::law_the_first_word_ends_at_white_space(name, c, args);
    assert(long[0] == '/');
    assert(short[0] == '/');
    assert(text::trim_start(Seq::<char>::empty()) =~= Seq::<char>::empty());
}

/// Every answer moves a mention on to one place: trusted contents and consent for
/// once run, lasting consent is recorded first and then runs, contents that are
/// not trusted are asked about, a refusal leaves the mention, and an approval
/// that could not be recorded fails.
pub proof fn law_every_answer_moves_a_mention_on(e: GateEvent)
    ensures
        gate(e) is Running <==> e == GateEvent::Trust(true) || e == GateEvent::Consent(
            ConsentOutcome::ApproveWithoutPersisting,
        ) || e == GateEvent::Recorded(true),
        gate(e) is AskingConsent <==> e == GateEvent::Trust(false),
        gate(e) is Recording <==> e == GateEvent::Consent(ConsentOutcome::ApproveAndPersist),
        gate(e) is Scanning <==> e == GateEvent::Consent(ConsentOutcome::Decline),
        gate(e) is Failed <==> e == GateEvent::Recorded(false),
{
}

/// Commands and skills are known under the names of their entries, each as it was
/// read.
pub proof fn law_models_go_by_their_entries(
    commands: Map<Seq<char>, CustomCommand>,
    skills: Map<Seq<char>, Skill>,
    name: Seq<char>,
)
    ensures
        command_models(commands).contains_key(name) <==> commands.contains_key(name),
        skill_models(skills).contains_key(name) <==> skills.contains_key(name),
        commands.contains_key(name) ==> command_models(commands)[name].template
            == commands[name].template@,
        skills.contains_key(name) ==> skill_models(skills)[name].contents == skills[name].contents@
            && skill_models(skills)[name].path == skills[name].path@ && skill_models(
            skills,
        )[name].scope == skills[name].scope,
        skills.contains_key(name) ==> (skill_models(skills)[name].run is Some
            <==> skills[name].run is Some),
        skills.contains_key(name) && skills[name].run is Some ==> skill_models(skills)[name].run
            == Some(skills[name].run->0@),
{
}

/// Settling a mention adds its outcome behind those before it and changes neither
/// the text nor what is left of it.
pub proof fn law_settling_adds_one_outcome<'a>(
    before: SkillResolver<'a>,
    after: SkillResolver<'a>,
    outcome: SkillOutcome,
)
    requires
        after.settled(before, outcome),
    ensures
        after.outcomes().len() == before.outcomes().len() + 1,
        after.outcomes().last() == outcome,
        after.outcomes().drop_last() == before.outcomes(),
        after.text_spec() == before.text_spec(),
        after.rest() == before.rest(),
        after.skills() == before.skills(),
        after.phase() is Scanning,
{
    assert(after.outcomes().drop_last() =~= before.outcomes());
}

} // verus!
