//! Which shell commands are plainly read-only git invocations.
//!
//! The question is purely about the command's text: one of five subcommands,
//! no shell metacharacter, nothing between `git` and the subcommand, and only
//! flags from a fixed list. Any doubt counts against the command.

use vstd::prelude::*;
use crate::text::{self, chars_of, is_digit, text_eq, words_of};

verus! {

/// Characters that disqualify a command wherever they stand. The equals sign
/// is among them, so that `--flag=value` never reaches the flag list.
pub open spec fn metacharacter(c: char) -> bool {
    ||| c == ';'
    ||| c == '&'
    ||| c == '|'
    ||| c == '<'
    ||| c == '>'
    ||| c == '\n'
    ||| c == '('
    ||| c == ')'
    ||| c == '{'
    ||| c == '}'
    ||| c == '`'
    ||| c == '$'
    ||| c == '*'
    ||| c == '?'
    ||| c == '['
    ||| c == ']'
    ||| c == '\''
    ||| c == '"'
    ||| c == '\\'
    ||| c == '#'
    ||| c == '~'
    ||| c == '='
}

/// The subcommands that only read.
pub open spec fn read_only_subcommand(word: Seq<char>) -> bool {
    ||| word == "status"@
    ||| word == "diff"@
    ||| word == "log"@
    ||| word == "show"@
    ||| word == "blame"@
}

/// The flags that are let through, but for the numeric ones.
pub open spec fn allowed_flag(word: Seq<char>) -> bool {
    ||| word == "-p"@
    ||| word == "-s"@
    ||| word == "--stat"@
    ||| word == "--numstat"@
    ||| word == "--name-only"@
    ||| word == "--name-status"@
    ||| word == "--oneline"@
    ||| word == "--graph"@
    ||| word == "--decorate"@
    ||| word == "--no-color"@
    ||| word == "--short"@
    ||| word == "--porcelain"@
    ||| word == "-n"@
    ||| word == "--max-count"@
    ||| word == "--author"@
    ||| word == "--since"@
    ||| word == "--until"@
    ||| word == "--grep"@
}

/// One dash and then digits alone: the short form of a commit count.
pub open spec fn numeric_flag(word: Seq<char>) -> bool {
    word.len() > 1 && word[0] == '-' && text::all_digits(word.skip(1))
}

/// An argument that is let through: anything that is no flag, and the flags of
/// the list.
pub open spec fn allowed_argument(word: Seq<char>) -> bool {
    (word.len() > 0 && word[0] == '-') ==> allowed_flag(word) || numeric_flag(word)
}

/// Whether a command holds a character that disqualifies it.
pub open spec fn has_metacharacter(command: Seq<char>) -> bool {
    exists|i: int| 0 <= i < command.len() && metacharacter(#[trigger] command[i])
}

/// Whether a command is plainly a read-only git invocation.
pub open spec fn read_only_git(command: Seq<char>) -> bool {
    let w = text::words(command);
    &&& !has_metacharacter(command)
    &&& w.len() >= 2
    &&& w[0] == "git"@
    &&& read_only_subcommand(w[1])
    &&& forall|i: int| 2 <= i < w.len() ==> allowed_argument(#[trigger] w[i])
}

fn is_metacharacter(c: char) -> (r: bool)
    ensures
        r == metacharacter(c),
{
    c == ';' || c == '&' || c == '|' || c == '<' || c == '>' || c == '\n' || c == '(' || c == ')'
        || c == '{' || c == '}' || c == '`' || c == '$' || c == '*' || c == '?' || c == '[' || c
        == ']' || c == '\'' || c == '"' || c == '\\' || c == '#' || c == '~' || c == '='
}

fn is_read_only_subcommand(word: &str) -> (r: bool)
    ensures
        r == read_only_subcommand(word@),
{
    text_eq(word, "status") || text_eq(word, "diff") || text_eq(word, "log") || text_eq(
        word,
        "show",
    ) || text_eq(word, "blame")
}

fn is_allowed_flag(word: &str) -> (r: bool)
    ensures
        r == allowed_flag(word@),
{
    text_eq(word, "-p") || text_eq(word, "-s") || text_eq(word, "--stat") || text_eq(
        word,
        "--numstat",
    ) || text_eq(word, "--name-only") || text_eq(word, "--name-status") || text_eq(
        word,
        "--oneline",
    ) || text_eq(word, "--graph") || text_eq(word, "--decorate") || text_eq(word, "--no-color")
        || text_eq(word, "--short") || text_eq(word, "--porcelain") || text_eq(word, "-n")
        || text_eq(word, "--max-count") || text_eq(word, "--author") || text_eq(word, "--since")
        || text_eq(word, "--until") || text_eq(word, "--grep")
}

/// Whether `flag` is one dash and then digits alone.
fn is_numeric_flag(flag: &str) -> (r: bool)
    ensures
        r == numeric_flag(flag@),
{
    let v = chars_of(flag);
    if v.len() < 2 || v[0] != '-' {
        return false;
    }
    let ghost rest = flag@.skip(1);
    let mut i: usize = 1;
    while i < v.len()
        invariant
            1 <= i <= v.len(),
            v@ == flag@,
            v@[0] == '-',
            rest == flag@.skip(1),
            forall|j: int| 0 <= j < i - 1 ==> text::ascii_digit(#[trigger] rest[j]),
        decreases v.len() - i,
    {
        assert(rest[i - 1] == v@[i as int]);
        if !is_digit(v[i]) {
            return false;
        }
        i += 1;
    }
    true
}

fn is_allowed_argument(word: &str) -> (r: bool)
    ensures
        r == allowed_argument(word@),
{
    let v = chars_of(word);
    if v.len() == 0 || v[0] != '-' {
        return true;
    }
    is_allowed_flag(word) || is_numeric_flag(word)
}

/// Whether `command` is plainly a read-only git invocation. Any doubt answers
/// `false`.
pub fn is_read_only_git(command: &str) -> (r: bool)
    ensures
        r == read_only_git(command@),
{
    let v = chars_of(command);
    let mut i: usize = 0;
    while i < v.len()
        invariant
            i <= v.len(),
            v@ == command@,
            forall|j: int| 0 <= j < i ==> !metacharacter(#[trigger] command@[j]),
        decreases v.len() - i,
    {
        if is_metacharacter(v[i]) {
            assert(metacharacter(command@[i as int]));
            return false;
        }
        i += 1;
    }
    let w = words_of(command);
    assert forall|k: int| 0 <= k < w@.len() implies text::words(command@)[k]
        == #[trigger] w@[k]@ by {
        assert(text::texts(w@)[k] == w@[k]@);
    }
    if w.len() < 2 || !text_eq(w[0].as_str(), "git") || !is_read_only_subcommand(w[1].as_str()) {
        return false;
    }
    let mut k: usize = 2;
    while k < w.len()
        invariant
            2 <= k <= w.len(),
            text::texts(w@) == text::words(command@),
            forall|j: int| 2 <= j < k ==> allowed_argument(#[trigger] text::words(command@)[j]),
        decreases w.len() - k,
    {
        assert(text::texts(w@)[k as int] == w@[k as int]@);
        if !is_allowed_argument(w[k].as_str()) {
            return false;
        }
        k += 1;
    }
    true
}

/// A command that passes holds none of the characters by which a shell would
/// run more than it, or redirect it.
pub proof fn law_read_only_commands_are_plain(command: Seq<char>, i: int)
    requires
        read_only_git(command),
        0 <= i < command.len(),
    ensures
        !metacharacter(command[i]),
{
}

/// A command that holds any character that a shell takes for its own does not
/// pass, wherever the character stands.
pub proof fn law_shell_characters_disqualify(a: Seq<char>, c: char, b: Seq<char>)
    requires
        ";&|<>\n(){}`$*?[]'\"\\#~="@.contains(c),
    ensures
        !read_only_git(a + seq![c] + b),
{
    reveal_strlit(";&|<>\n(){}`$*?[]'\"\\#~=");
    let s = a + seq![c] + b;
    assert(s[a.len() as int] == c);
    let all = ";&|<>\n(){}`$*?[]'\"\\#~="@;
    let i = all.index_of(c);
    assert(all[i] == c);
    assert(metacharacter(c));
}

/// The shortest commands that pass are `git` and one of the five subcommands that
/// only read.
pub proof fn law_five_subcommands_only_read(sub: Seq<char>)
    requires
        sub.len() > 0,
        forall|i: int| 0 <= i < sub.len() ==> 'a' <= #[trigger] sub[i] <= 'z',
    ensures
        read_only_git("git"@ + seq![' '] + sub) <==> seq![
            "status"@,
            "diff"@,
            "log"@,
            "show"@,
            "blame"@,
        ].contains(sub),
        !read_only_git("git"@),
{
    reveal_strlit("git");
    let git = "git"@;
    let s = git + seq![' '] + sub;
    text::law_white_space_parts_words(git, ' ', sub);
    text::law_a_run_is_a_word(git);
    text::law_a_run_is_a_word(sub);
    let w = text::words(s);
    assert(w =~= seq![git, sub]);
    assert forall|i: int| 0 <= i < s.len() implies !metacharacter(#[trigger] s[i]) by {
        if i > 3 {
            assert(s[i] == sub[i - 4]);
        } else {
            assert(i < 3 ==> s[i] == git[i]);
        }
    }
    let five = seq!["status"@, "diff"@, "log"@, "show"@, "blame"@];
    assert(five[0] == "status"@ && five[1] == "diff"@ && five[2] == "log"@ && five[3] == "show"@
        && five[4] == "blame"@);
    if five.contains(sub) {
        let i = five.index_of(sub);
        assert(five[i] == sub);
    }
}

/// Each argument behind the subcommand is judged by itself: it must be free of
/// shell characters, and a flag must be on the list or a dash and digits. One
/// argument more takes a command's standing away if it fails, and changes nothing
/// if it passes.
pub proof fn law_arguments_are_judged_one_by_one(command: Seq<char>, arg: Seq<char>)
    requires
        text::words(command).len() >= 2,
        arg.len() > 0,
        forall|i: int| 0 <= i < arg.len() ==> !text::white(#[trigger] arg[i]),
    ensures
        ({
            let plain = forall|i: int|
                0 <= i < arg.len() ==> !";&|<>\n(){}`$*?[]'\"\\#~="@.contains(#[trigger] arg[i]);
            let listed = seq![
                "-p"@,
                "-s"@,
                "--stat"@,
                "--numstat"@,
                "--name-only"@,
                "--name-status"@,
                "--oneline"@,
                "--graph"@,
                "--decorate"@,
                "--no-color"@,
                "--short"@,
                "--porcelain"@,
                "-n"@,
                "--max-count"@,
                "--author"@,
                "--since"@,
                "--until"@,
                "--grep"@,
            ].contains(arg);
            let count = arg.len() > 1 && forall|i: int|
                1 <= i < arg.len() ==> '0' <= #[trigger] arg[i] <= '9';
            read_only_git(command + seq![' '] + arg) <==> read_only_git(command) && plain && (arg[0]
                == '-' ==> listed || count)
        }),
{
    let s = command + seq![' '] + arg;
    let n = command.len() as int;
    let w = text::words(command);
    let x = text::words(s);
    text::law_white_space_parts_words(command, ' ', arg);
    text::law_a_run_is_a_word(arg);
    assert(x =~= w.push(arg));
    assert(x[w.len() as int] == arg);
    assert(forall|i: int| 0 <= i < w.len() ==> x[i] == w[i]);
    let all = ";&|<>\n(){}`$*?[]'\"\\#~="@;
    let plain = forall|i: int| 0 <= i < arg.len() ==> !all.contains(#[trigger] arg[i]);
    assert forall|c: char| metacharacter(c) <==> #[trigger] all.contains(c) by {
        lemma_metacharacters(c);
    }
    assert(has_metacharacter(s) <==> has_metacharacter(command) || !plain) by {
        if has_metacharacter(command) {
            let i = choose|i: int| 0 <= i < command.len() && metacharacter(#[trigger] command[i]);
            assert(s[i] == command[i]);
        }
        if !plain {
            let i = choose|i: int| 0 <= i < arg.len() && all.contains(#[trigger] arg[i]);
            assert(s[n + 1 + i] == arg[i]);
            assert(metacharacter(arg[i]));
        }
        if has_metacharacter(s) {
            let i = choose|i: int| 0 <= i < s.len() && metacharacter(#[trigger] s[i]);
            if i < n {
                assert(s[i] == command[i]);
            } else if i > n {
                assert(s[i] == arg[i - n - 1]);
                assert(all.contains(arg[i - n - 1]));
            }
        }
    }
    lemma_listed_flags(arg);
    assert(numeric_flag(arg) <==> arg.len() > 1 && arg[0] == '-' && forall|i: int|
        1 <= i < arg.len() ==> '0' <= #[trigger] arg[i] <= '9') by {
        let t = arg.skip(1);
        if arg.len() > 1 && numeric_flag(arg) {
            assert forall|i: int| 1 <= i < arg.len() implies '0' <= #[trigger] arg[i] <= '9' by {
                assert(text::ascii_digit(t[i - 1]));
            }
        }
        if arg.len() > 1 && forall|i: int|
            1 <= i < arg.len() ==> '0' <= #[trigger] arg[i] <= '9' {
            assert forall|i: int| 0 <= i < t.len() implies text::ascii_digit(#[trigger] t[i]) by {
                assert(t[i] == arg[i + 1]);
            }
        }
    }
    if read_only_git(s) {
        assert forall|i: int| 2 <= i < w.len() implies allowed_argument(#[trigger] w[i]) by {
            assert(allowed_argument(x[i]));
        }
        assert(allowed_argument(x[w.len() as int]));
    }
}

proof fn lemma_metacharacters(c: char)
    ensures
        metacharacter(c) <==> ";&|<>\n(){}`$*?[]'\"\\#~="@.contains(c),
{
    reveal_strlit(";&|<>\n(){}`$*?[]'\"\\#~=");
    let all = ";&|<>\n(){}`$*?[]'\"\\#~="@;
    if all.contains(c) {
        let i = all.index_of(c);
        assert(all[i] == c);
    }
    if metacharacter(c) {
        assert(all[0] == ';' && all[1] == '&' && all[2] == '|' && all[3] == '<' && all[4] == '>'
            && all[5] == '\n' && all[6] == '(' && all[7] == ')' && all[8] == '{' && all[9] == '}'
            && all[10] == '`' && all[11] == '$' && all[12] == '*' && all[13] == '?' && all[14]
            == '[' && all[15] == ']' && all[16] == '\'' && all[17] == '"' && all[18] == '\\'
            && all[19] == '#' && all[20] == '~' && all[21] == '=');
    }
}

proof fn lemma_listed_flags(arg: Seq<char>)
    ensures
        allowed_flag(arg) <==> seq![
            "-p"@,
            "-s"@,
            "--stat"@,
            "--numstat"@,
            "--name-only"@,
            "--name-status"@,
            "--oneline"@,
            "--graph"@,
            "--decorate"@,
            "--no-color"@,
            "--short"@,
            "--porcelain"@,
            "-n"@,
            "--max-count"@,
            "--author"@,
            "--since"@,
            "--until"@,
            "--grep"@,
        ].contains(arg),
{
    let l = seq![
        "-p"@,
        "-s"@,
        "--stat"@,
        "--numstat"@,
        "--name-only"@,
        "--name-status"@,
        "--oneline"@,
        "--graph"@,
        "--decorate"@,
        "--no-color"@,
        "--short"@,
        "--porcelain"@,
        "-n"@,
        "--max-count"@,
        "--author"@,
        "--since"@,
        "--until"@,
        "--grep"@,
    ];
    if l.contains(arg) {
        let i = l.index_of(arg);
        assert(l[i] == arg);
    }
    if allowed_flag(arg) {
        assert(l[0] == "-p"@ && l[1] == "-s"@ && l[2] == "--stat"@ && l[3] == "--numstat"@ && l[4]
            == "--name-only"@ && l[5] == "--name-status"@ && l[6] == "--oneline"@ && l[7]
            == "--graph"@ && l[8] == "--decorate"@ && l[9] == "--no-color"@ && l[10] == "--short"@
            && l[11] == "--porcelain"@ && l[12] == "-n"@ && l[13] == "--max-count"@ && l[14]
            == "--author"@ && l[15] == "--since"@ && l[16] == "--until"@ && l[17] == "--grep"@);
    }
}

} // verus!
