//! `@path` mentions: each path-shaped mention in a prompt is followed by the
//! contents of the file it names, within a budget per file and per turn.

use vstd::prelude::*;
use crate::text::{self, chars_of, decimal_of, string_of_range, width_of, is_white, byte_len_of};

verus! {

/// What came of looking a mentioned path up.
#[derive(Debug)]
pub enum MentionResolution {
    /// The file's contents.
    Found(String),
    /// There is no such file, or it could not be read.
    NotFound,
}

/// The most bytes of one file that are injected.
pub const MAX_MENTION_FILE_BYTES: usize = 64 * 1024;

/// The bytes after which no further file is injected in the same turn.
pub const MAX_MENTION_TURN_BYTES: usize = 256 * 1024;

/// What came of a look-up, as mathematical values.
pub enum Looked {
    Found(Seq<char>),
    NotFound,
}

impl View for MentionResolution {
    type V = Looked;

    open spec fn view(&self) -> Looked {
        match *self {
            MentionResolution::Found(contents) => Looked::Found(contents@),
            MentionResolution::NotFound => Looked::NotFound,
        }
    }
}

/// A token is looked up only if it holds a slash or a dot.
pub open spec fn path_shaped(token: Seq<char>) -> bool {
    token.contains('/') || token.contains('.')
}

/// How many leading characters of `s` fit into `cap` bytes.
pub open spec fn fit_len(s: Seq<char>, cap: int) -> nat
    decreases s.len(),
{
    if s.len() == 0 || text::char_width(s[0]) > cap {
        0
    } else {
        1 + fit_len(s.skip(1), cap - text::char_width(s[0]))
    }
}

/// The longest beginning of `contents` that fits into `cap` bytes.
pub open spec fn capped(contents: Seq<char>, cap: int) -> Seq<char> {
    if text::byte_len(contents) <= cap {
        contents
    } else {
        contents.take(fit_len(contents, cap) as int)
    }
}

/// What follows a beginning that was cut short; nothing follows the whole.
pub open spec fn cut_notice(contents: Seq<char>, cap: int) -> Seq<char> {
    if text::byte_len(contents) <= cap {
        Seq::empty()
    } else {
        "\n[truncated, showing "@ + text::decimal(text::byte_len(capped(contents, cap)))
            + " of "@ + text::decimal(text::byte_len(contents)) + " bytes]"@
    }
}

/// What follows a looked-up mention in the prompt, when `injected` bytes have
/// been injected before it.
pub open spec fn mention_note(token: Seq<char>, looked: Looked, injected: int) -> Seq<char> {
    match looked {
        Looked::Found(contents) => if injected >= MAX_MENTION_TURN_BYTES {
            " [skipped: per-turn mention budget of "@ + text::decimal(
                MAX_MENTION_TURN_BYTES as nat,
            ) + " bytes already reached, "@ + token + " not injected]"@
        } else {
            "\n[Contents of "@ + token + "]\n```\n"@ + capped(
                contents,
                MAX_MENTION_FILE_BYTES as int,
            ) + cut_notice(contents, MAX_MENTION_FILE_BYTES as int) + "\n```\n"@
        },
        Looked::NotFound => " (file not found: "@ + token + ")"@,
    }
}

/// How many bytes a looked-up mention injects.
pub open spec fn mention_cost(looked: Looked, injected: int) -> nat {
    match looked {
        Looked::Found(contents) => if injected >= MAX_MENTION_TURN_BYTES {
            0
        } else {
            text::byte_len(capped(contents, MAX_MENTION_FILE_BYTES as int))
        },
        Looked::NotFound => 0,
    }
}

/// The token of the mention at the head of `s`: what follows the at sign up
/// to white space.
pub open spec fn token_of(s: Seq<char>) -> Seq<char> {
    s.skip(1).take(text::word_len(s.skip(1)) as int)
}

/// What follows the mention at the head of `s`.
pub open spec fn after_token(s: Seq<char>) -> Seq<char> {
    s.skip(1).skip(text::word_len(s.skip(1)) as int)
}

/// The tokens of `s` that are looked up, in order. `open` says whether `s`
/// stands at the start of the prompt or behind white space.
pub open spec fn looked_up(s: Seq<char>, open: bool) -> Seq<Seq<char>>
    decreases s.len(),
{
    if s.len() == 0 {
        Seq::empty()
    } else if s[0] == '@' && open {
        proof {
            text::lemma_word_len(s.skip(1));
        }
        if path_shaped(token_of(s)) {
            seq![token_of(s)] + looked_up(after_token(s), false)
        } else {
            looked_up(after_token(s), false)
        }
    } else {
        looked_up(s.skip(1), text::white(s[0]))
    }
}

/// `s` with each looked-up mention followed by its note; `results` are what
/// came of the look-ups, in order.
pub open spec fn expansion(s: Seq<char>, open: bool, injected: int, results: Seq<Looked>) -> Seq<
    char,
>
    decreases s.len(),
{
    if s.len() == 0 {
        Seq::empty()
    } else if s[0] == '@' && open {
        proof {
            text::lemma_word_len(s.skip(1));
        }
        if path_shaped(token_of(s)) {
            "@"@ + token_of(s) + mention_note(token_of(s), results[0], injected) + expansion(
                after_token(s),
                false,
                injected + mention_cost(results[0], injected),
                results.skip(1),
            )
        } else {
            "@"@ + token_of(s) + expansion(after_token(s), false, injected, results)
        }
    } else {
        seq![s[0]] + expansion(s.skip(1), text::white(s[0]), injected, results)
    }
}

/// Whether `resolve` may answer `r` when asked about `token`.
pub open spec fn may_answer<F: Fn(&str) -> MentionResolution>(
    resolve: F,
    token: Seq<char>,
    r: MentionResolution,
) -> bool {
    exists|t: &str| t@ == token && call_ensures(resolve, (t,), r)
}

/// Whether `results` are answers of `resolve` about `tokens`, one for one.
pub open spec fn answers_of<F: Fn(&str) -> MentionResolution>(
    resolve: F,
    tokens: Seq<Seq<char>>,
    results: Seq<MentionResolution>,
) -> bool {
    &&& results.len() == tokens.len()
    &&& forall|i: int| 0 <= i < tokens.len() ==> may_answer(resolve, tokens[i], #[trigger] results[i])
}

/// What came of some look-ups, as mathematical values.
pub open spec fn looks(v: Seq<MentionResolution>) -> Seq<Looked> {
    v.map_values(|r: MentionResolution| r@)
}

/// The longest beginning that fits fills the budget as far as whole
/// characters can.
pub proof fn law_cut_is_the_longest_that_fits(s: Seq<char>, cap: int)
    requires
        0 <= cap,
    ensures
        fit_len(s, cap) <= s.len(),
        text::byte_len(s.take(fit_len(s, cap) as int)) <= cap,
        fit_len(s, cap) < s.len() ==> text::byte_len(s.take(fit_len(s, cap) as int + 1)) > cap,
    decreases s.len(),
{
    if s.len() == 0 {
        assert(s.take(0) =~= Seq::empty());
    } else if text::char_width(s[0]) > cap {
        assert(s.take(0) =~= Seq::empty());
        assert(s.take(1).drop_last() =~= Seq::empty());
        assert(s.take(1).last() == s[0]);
        assert(text::byte_len(s.take(1).drop_last()) == 0);
    } else {
        let rest = s.skip(1);
        let w = text::char_width(s[0]) as int;
        law_cut_is_the_longest_that_fits(rest, cap - w);
        let n = fit_len(rest, cap - w) as int;
        lemma_byte_len_front(s.take(n + 1));
        assert(s.take(n + 1).skip(1) =~= rest.take(n));
        if n < rest.len() {
            lemma_byte_len_front(s.take(n + 2));
            assert(s.take(n + 2).skip(1) =~= rest.take(n + 1));
        }
    }
}

/// How many bytes some look-ups inject in all, when `injected` bytes have been
/// injected before them.
pub open spec fn total_cost(results: Seq<Looked>, injected: int) -> int
    decreases results.len(),
{
    if results.len() == 0 {
        injected
    } else {
        total_cost(results.skip(1), injected + mention_cost(results[0], injected))
    }
}

/// One turn injects less than its budget and one more file, however many files
/// it mentions and however large they are.
pub proof fn law_a_turn_injects_a_bounded_amount(results: Seq<Looked>, injected: int)
    requires
        0 <= injected < MAX_MENTION_TURN_BYTES + MAX_MENTION_FILE_BYTES,
    ensures
        injected <= total_cost(results, injected) < MAX_MENTION_TURN_BYTES
            + MAX_MENTION_FILE_BYTES,
    decreases results.len(),
{
    if results.len() > 0 {
        match results[0] {
            Looked::Found(contents) => {
                law_cut_is_the_longest_that_fits(contents, MAX_MENTION_FILE_BYTES as int);
            },
            Looked::NotFound => {},
        }
        law_a_turn_injects_a_bounded_amount(
            results.skip(1),
            injected + mention_cost(results[0], injected),
        );
    }
}

/// A text in which nothing looks like a path is left exactly as it was.
pub proof fn law_texts_without_paths_are_untouched(
    s: Seq<char>,
    open: bool,
    injected: int,
    results: Seq<Looked>,
)
    requires
        looked_up(s, open).len() == 0,
    ensures
        expansion(s, open, injected, results) == s,
    decreases s.len(),
{
    if s.len() > 0 {
        if s[0] == '@' && open {
            text::lemma_word_len(s.skip(1));
            reveal_strlit("@");
            law_texts_without_paths_are_untouched(after_token(s), false, injected, results);
            assert(expansion(s, open, injected, results) =~= s);
        } else {
            law_texts_without_paths_are_untouched(
                s.skip(1),
                text::white(s[0]),
                injected,
                results,
            );
            assert(expansion(s, open, injected, results) =~= s);
        }
    }
}

proof fn lemma_byte_len_front(s: Seq<char>)
    requires
        s.len() > 0,
    ensures
        text::byte_len(s) == text::char_width(s[0]) + text::byte_len(s.skip(1)),
    decreases s.len(),
{
    if s.len() == 1 {
        assert(s.drop_last() =~= Seq::empty());
        assert(s.skip(1) =~= Seq::empty());
        assert(text::byte_len(s.drop_last()) == 0);
    } else {
        lemma_byte_len_front(s.drop_last());
        assert(s.drop_last().skip(1) =~= s.skip(1).drop_last());
    }
}

/// The longest beginning of `contents` that fits into `cap` bytes, how many
/// bytes it takes, and the notice that follows it.
fn truncate_to_cap(contents: &str, cap: usize) -> (r: (String, usize, String))
    ensures
        r.0@ == capped(contents@, cap as int),
        r.1 == text::byte_len(capped(contents@, cap as int)),
        r.1 <= cap,
        r.2@ == cut_notice(contents@, cap as int),
{
    let total = byte_len_of(contents);
    if total <= cap as u128 {
        return (contents.to_owned(), total as usize, String::new());
    }
    let v = chars_of(contents);
    let mut used: usize = 0;
    let mut n: usize = 0;
    assert(contents@.skip(0) =~= contents@);
    while n < v.len() && width_of(v[n]) <= cap - used
        invariant
            n <= v.len(),
            v@ == contents@,
            used <= cap,
            used == text::byte_len(contents@.take(n as int)),
            fit_len(contents@, cap as int) == n + fit_len(contents@.skip(n as int), cap - used),
        decreases v.len() - n,
    {
        proof {
            assert(contents@.skip(n as int).skip(1) =~= contents@.skip(n + 1));
            assert(contents@.take(n + 1).drop_last() =~= contents@.take(n as int));
        }
        used += width_of(v[n]);
        n += 1;
    }
    let body = string_of_range(&v, 0, n);
    assert(body@ =~= contents@.take(n as int));
    let mut notice = "\n[truncated, showing ".to_owned();
    notice.append(decimal_of(used as u128).as_str());
    notice.append(" of ");
    notice.append(decimal_of(total).as_str());
    notice.append(" bytes]");
    (body, used, notice)
}

/// Whether a token is looked up.
fn is_path_shaped(v: &Vec<char>, from: usize, to: usize) -> (r: bool)
    requires
        from <= to <= v.len(),
    ensures
        r == path_shaped(v@.subrange(from as int, to as int)),
{
    let ghost token = v@.subrange(from as int, to as int);
    let mut i: usize = from;
    while i < to
        invariant
            from <= i <= to <= v.len(),
            token == v@.subrange(from as int, to as int),
            forall|j: int| 0 <= j < i - from ==> token[j] != '/' && #[trigger] token[j] != '.',
        decreases to - i,
    {
        if v[i] == '/' || v[i] == '.' {
            assert(token[i - from] == v@[i as int]);
            assert(token.contains(v@[i as int]));
            return true;
        }
        assert(token[i - from] == v@[i as int]);
        i += 1;
    }
    false
}

/// What follows a looked-up mention, and how many bytes it injects.
fn note_of(token: &str, looked: &MentionResolution, injected: usize) -> (r: (String, usize))
    ensures
        r.0@ == mention_note(token@, looked@, injected as int),
        r.1 == mention_cost(looked@, injected as int),
        r.1 <= MAX_MENTION_FILE_BYTES,
        injected >= MAX_MENTION_TURN_BYTES ==> r.1 == 0,
{
    match looked {
        MentionResolution::Found(contents) => {
            if injected >= MAX_MENTION_TURN_BYTES {
                let mut note = " [skipped: per-turn mention budget of ".to_owned();
                note.append(decimal_of(MAX_MENTION_TURN_BYTES as u128).as_str());
                note.append(" bytes already reached, ");
                note.append(token);
                note.append(" not injected]");
                (note, 0)
            } else {
                let (body, size, notice) = truncate_to_cap(
                    contents.as_str(),
                    MAX_MENTION_FILE_BYTES,
                );
                let mut note = "\n[Contents of ".to_owned();
                note.append(token);
                note.append("]\n```\n");
                note.append(body.as_str());
                note.append(notice.as_str());
                note.append("\n```\n");
                (note, size)
            }
        },
        MentionResolution::NotFound => {
            let mut note = " (file not found: ".to_owned();
            note.append(token);
            note.append(")");
            (note, 0)
        },
    }
}

/// Expands every mention in `text`. An at sign at the start or behind white
/// space begins a mention; one whose token holds a slash or a dot is looked
/// up by `resolve`, and what was found follows it. Every other character
/// stays as it is.
pub fn expand_mentions<F: Fn(&str) -> MentionResolution>(text: &str, resolve: F) -> (r: String)
    requires
        forall|t: &str|
            looked_up(text@, true).contains(t@) ==> #[trigger] call_requires(resolve, (t,)),
    ensures
        exists|results: Seq<MentionResolution>|
            {
                &&& #[trigger] answers_of(resolve, looked_up(text@, true), results)
                &&& r@ == expansion(text@, true, 0, looks(results))
            },
{
    let v = chars_of(text);
    let mut out = String::new();
    let mut i: usize = 0;
    let mut open = true;
    let mut injected: usize = 0;
    let ghost mut tokens: Seq<Seq<char>> = Seq::empty();
    let ghost mut results: Seq<MentionResolution> = Seq::empty();
    proof {
        assert(text@.skip(0) =~= text@);
        assert(tokens + looked_up(text@, true) =~= looked_up(text@, true));
        assert forall|more: Seq<Looked>|
            expansion(text@, true, 0, looks(results) + more) == out@ + #[trigger] expansion(
                text@.skip(0),
                open,
                injected as int,
                more,
            ) by {
            assert(looks(results) + more =~= more);
            assert(out@ + expansion(text@, true, 0, more) =~= expansion(text@, true, 0, more));
        }
    }
    while i < v.len()
        invariant
            i <= v.len(),
            v@ == text@,
            injected <= MAX_MENTION_TURN_BYTES + MAX_MENTION_FILE_BYTES,
            forall|t: &str|
                looked_up(text@, true).contains(t@) ==> #[trigger] call_requires(resolve, (t,)),
            answers_of(resolve, tokens, results),
            looked_up(text@, true) == tokens + looked_up(text@.skip(i as int), open),
            forall|more: Seq<Looked>|
                expansion(text@, true, 0, looks(results) + more) == out@ + #[trigger] expansion(
                    text@.skip(i as int),
                    open,
                    injected as int,
                    more,
                ),
        decreases v.len() - i,
    {
        let ghost rest = text@.skip(i as int);
        let ghost out0 = out@;
        let ghost results0 = results;
        let ghost injected0 = injected as int;
        let ghost open0 = open;
        let c = v[i];
        if c == '@' && open {
            let start: usize = i + 1;
            let mut end: usize = start;
            let ghost tail = rest.skip(1);
            proof {
                assert(tail =~= text@.skip(start as int));
            }
            while end < v.len() && !is_white(v[end])
                invariant
                    start <= end <= v.len(),
                    v@ == text@,
                    tail == text@.skip(start as int),
                    text::word_len(tail) == (end - start) + text::word_len(text@.skip(end as int)),
                decreases v.len() - end,
            {
                assert(text@.skip(end as int).skip(1) =~= text@.skip(end + 1));
                end += 1;
            }
            let token = string_of_range(&v, start, end);
            proof {
                text::lemma_word_len(tail);
                assert(token@ =~= token_of(rest));
                assert(after_token(rest) =~= text@.skip(end as int));
            }
            out.push('@');
            out.append(token.as_str());
            proof {
                assert(out@ =~= out0 + ("@"@ + token@)) by {
                    reveal_strlit("@");
                }
            }
            if is_path_shaped(&v, start, end) {
                proof {
                    let all = looked_up(text@, true);
                    assert(all[tokens.len() as int] == token@);
                    assert(all.contains(token@));
                }
                let looked = resolve(token.as_str());
                let (note, cost) = note_of(token.as_str(), &looked, injected);
                out.append(note.as_str());
                injected += cost;
                proof {
                    let tokens0 = tokens;
                    tokens = tokens.push(token@);
                    results = results.push(looked);
                    assert(may_answer(resolve, token@, looked)) by {
                        let t = token.view();
                        assert(exists|s: &str| s@ == t && call_ensures(resolve, (s,), looked));
                    }
                    assert forall|k: int| 0 <= k < tokens.len() implies may_answer(
                        resolve,
                        tokens[k],
                        #[trigger] results[k],
                    ) by {
                        if k < tokens0.len() {
                            assert(results[k] == results0[k]);
                        }
                    }
                    assert(tokens + looked_up(after_token(rest), false) =~= tokens0 + looked_up(
                        rest,
                        true,
                    ));
                    assert forall|more: Seq<Looked>|
                        expansion(text@, true, 0, looks(results) + more) == out@
                            + #[trigger] expansion(
                            text@.skip(end as int),
                            false,
                            injected as int,
                            more,
                        ) by {
                        let with = seq![looked@] + more;
                        assert(looks(results) + more =~= looks(results0) + with);
                        assert(with.skip(1) =~= more);
                        assert(expansion(text@, true, 0, looks(results0) + with) == out0
                            + expansion(rest, true, injected0, with));
                        assert(out@ + expansion(after_token(rest), false, injected as int, more)
                            =~= out0 + expansion(rest, true, injected0, with));
                    }
                }
            } else {
                proof {
                    assert forall|more: Seq<Looked>|
                        expansion(text@, true, 0, looks(results) + more) == out@
                            + #[trigger] expansion(
                            text@.skip(end as int),
                            false,
                            injected as int,
                            more,
                        ) by {
                        assert(expansion(text@, true, 0, looks(results0) + more) == out0
                            + expansion(rest, true, injected0, more));
                        assert(out@ + expansion(after_token(rest), false, injected as int, more)
                            =~= out0 + expansion(rest, true, injected0, more));
                    }
                }
            }
            open = false;
            i = end;
        } else {
            out.push(c);
            open = is_white(c);
            proof {
                assert(rest.skip(1) =~= text@.skip(i + 1));
                assert forall|more: Seq<Looked>|
                    expansion(text@, true, 0, looks(results) + more) == out@ + #[trigger] expansion(
                        text@.skip(i + 1),
                        open,
                        injected as int,
                        more,
                    ) by {
                    assert(expansion(text@, true, 0, looks(results0) + more) == out0 + expansion(
                        rest,
                        open0,
                        injected0,
                        more,
                    ));
                    assert(out@ + expansion(rest.skip(1), open, injected0, more) =~= out0
                        + expansion(rest, open0, injected0, more)) by {
                        assert(out@ =~= out0 + seq![c]);
                    }
                }
            }
            i += 1;
        }
    }
    proof {
        assert(text@.skip(i as int) =~= Seq::empty());
        assert(tokens + looked_up(text@.skip(i as int), open) =~= tokens);
        assert(looks(results) + Seq::<Looked>::empty() =~= looks(results));
        let last = expansion(text@.skip(i as int), open, injected as int, Seq::empty());
        assert(out@ + last =~= out@);
        assert(answers_of(resolve, looked_up(text@, true), results));
    }
    out
}

/// A text up to white space and what follows that are searched apart: the mentions
/// of the whole are those of the one and then those of the other.
pub proof fn law_mentions_end_at_white_space(a: Seq<char>, c: char, b: Seq<char>, open: bool)
    requires
        text::white(c),
    ensures
        looked_up(a + seq![c] + b, open) == looked_up(a, open) + looked_up(b, true),
    decreases a.len(),
{
    let s = a + seq![c] + b;
    if a.len() == 0 {
        assert(s[0] == c);
        assert(s.skip(1) =~= b);
        assert(looked_up(a, open) + looked_up(b, true) =~= looked_up(b, true));
    } else if a[0] == '@' && open {
        lemma_token_before_white(a, c, b);
        text::lemma_word_len(a.skip(1));
        law_mentions_end_at_white_space(after_token(a), c, b, false);
        assert(looked_up(s, open) =~= looked_up(a, open) + looked_up(b, true));
    } else {
        assert(s[0] == a[0]);
        assert(s.skip(1) =~= a.skip(1) + seq![c] + b);
        law_mentions_end_at_white_space(a.skip(1), c, b, text::white(a[0]));
    }
}

proof fn lemma_token_before_white(a: Seq<char>, c: char, b: Seq<char>)
    requires
        a.len() > 0,
        text::white(c),
    ensures
        token_of(a + seq![c] + b) == token_of(a),
        after_token(a + seq![c] + b) == after_token(a) + seq![c] + b,
{
    let s = a + seq![c] + b;
    let x = a.skip(1);
    let y = s.skip(1);
    assert(y =~= x + seq![c] + b);
    text::lemma_word_len(x);
    text::lemma_word_len(y);
    let n = text::word_len(x) as int;
    let m = text::word_len(y) as int;
    if m < n {
        assert(y[m] == x[m]);
    }
    if m > n {
        if n < x.len() {
            assert(y[n] == x[n]);
        } else {
            assert(y[n] == c);
        }
    }
    assert(y.take(n) =~= x.take(n));
    assert(y.skip(n) =~= x.skip(n) + seq![c] + b);
}

/// A mention that holds a slash or a dot is looked up, by exactly what follows its
/// at sign, and no other is.
pub proof fn law_paths_are_looked_up(token: Seq<char>)
    requires
        forall|k: int| 0 <= k < token.len() ==> !text::white(#[trigger] token[k]),
    ensures
        (exists|k: int| 0 <= k < token.len() && (#[trigger] token[k] == '/' || token[k] == '.'))
            ==> looked_up(seq!['@'] + token, true) == seq![token],
        !(exists|k: int| 0 <= k < token.len() && (#[trigger] token[k] == '/' || token[k] == '.'))
            ==> looked_up(seq!['@'] + token, true) == Seq::<Seq<char>>::empty(),
{
    let s = seq!['@'] + token;
    lemma_whole_token(token);
    let none = after_token(s);
    assert(looked_up(none, false) =~= Seq::<Seq<char>>::empty());
    if exists|k: int| 0 <= k < token.len() && (#[trigger] token[k] == '/' || token[k] == '.') {
        let k = choose|k: int|
            0 <= k < token.len() && (#[trigger] token[k] == '/' || token[k] == '.');
        assert(token.contains(token[k]));
        assert(looked_up(s, true) =~= seq![token]);
    } else {
        if token.contains('/') {
            let k = token.index_of('/');
            assert(token[k] == '/');
        }
        if token.contains('.') {
            let k = token.index_of('.');
            assert(token[k] == '.');
        }
    }
}

proof fn lemma_whole_token(token: Seq<char>)
    requires
        forall|k: int| 0 <= k < token.len() ==> !text::white(#[trigger] token[k]),
    ensures
        token_of(seq!['@'] + token) == token,
        after_token(seq!['@'] + token).len() == 0,
{
    let s = seq!['@'] + token;
    assert(s.skip(1) =~= token);
    text::lemma_word_len(token);
    assert(token.take(token.len() as int) =~= token);
}

/// An at sign inside a word begins no mention, whatever follows it.
pub proof fn law_at_signs_inside_words_mean_nothing(s: Seq<char>, injected: int, results: Seq<Looked>)
    requires
        forall|k: int| 0 <= k < s.len() ==> !text::white(#[trigger] s[k]),
    ensures
        looked_up(s, false).len() == 0,
        expansion(s, false, injected, results) == s,
        s.len() > 0 && s[0] != '@' ==> looked_up(s, true).len() == 0 && expansion(
            s,
            true,
            injected,
            results,
        ) == s,
    decreases s.len(),
{
    if s.len() > 0 {
        let t = s.skip(1);
        assert forall|k: int| 0 <= k < t.len() implies !text::white(#[trigger] t[k]) by {
            assert(t[k] == s[k + 1]);
        }
        assert(!text::white(s[0]));
        law_at_signs_inside_words_mean_nothing(t, injected, results);
        assert(seq![s[0]] + t =~= s);
    }
}

/// Prompts are expanded piece by piece: white space ends a mention, and what stands
/// before it is expanded with its own look-ups, what follows with those that are
/// left.
pub proof fn law_expansion_goes_piece_by_piece(
    a: Seq<char>,
    c: char,
    b: Seq<char>,
    open: bool,
    injected: int,
    x: Seq<Looked>,
    y: Seq<Looked>,
)
    requires
        text::white(c),
        x.len() == looked_up(a, open).len(),
    ensures
        expansion(a + seq![c] + b, open, injected, x + y) == expansion(a, open, injected, x)
            + seq![c] + expansion(b, true, total_cost(x, injected), y),
    decreases a.len(),
{
    let s = a + seq![c] + b;
    let all = x + y;
    if a.len() == 0 {
        assert(s[0] == c);
        assert(s.skip(1) =~= b);
        assert(x.len() == 0);
        assert(all =~= y);
        assert(expansion(a, open, injected, x) + seq![c] =~= seq![c]);
        if c == '@' && open {
            assert(!text::white('@'));
        }
    } else if a[0] == '@' && open {
        assert(s[0] == '@');
        lemma_token_before_white(a, c, b);
        text::lemma_word_len(a.skip(1));
        let rest = after_token(a);
        if path_shaped(token_of(a)) {
            assert(all[0] == x[0]);
            assert(all.skip(1) =~= x.skip(1) + y);
            law_expansion_goes_piece_by_piece(
                rest,
                c,
                b,
                false,
                injected + mention_cost(x[0], injected),
                x.skip(1),
                y,
            );
        } else {
            law_expansion_goes_piece_by_piece(rest, c, b, false, injected, x, y);
        }
        assert(expansion(s, open, injected, all) =~= expansion(a, open, injected, x) + seq![c]
            + expansion(b, true, total_cost(x, injected), y));
    } else {
        assert(s[0] == a[0]);
        assert(s.skip(1) =~= a.skip(1) + seq![c] + b);
        law_expansion_goes_piece_by_piece(
            a.skip(1),
            c,
            b,
            text::white(a[0]),
            injected,
            x,
            y,
        );
        assert(expansion(s, open, injected, all) =~= expansion(a, open, injected, x) + seq![c]
            + expansion(b, true, total_cost(x, injected), y));
    }
}

/// What is found for a mention follows it: all of a file of at most 65536 bytes,
/// under its name, as long as fewer than 262144 bytes have gone in before it.
pub proof fn law_found_files_follow_their_mention(
    token: Seq<char>,
    contents: Seq<char>,
    injected: int,
    more: Seq<Looked>,
)
    requires
        forall|k: int| 0 <= k < token.len() ==> !text::white(#[trigger] token[k]),
        exists|k: int| 0 <= k < token.len() && (#[trigger] token[k] == '/' || token[k] == '.'),
        text::byte_len(contents) <= 65536,
        0 <= injected < 262144,
    ensures
        expansion(
            seq!['@'] + token,
            true,
            injected,
            seq![Looked::Found(contents)] + more,
        ) == seq!['@'] + token + "\n[Contents of "@ + token + "]\n```\n"@ + contents + "\n```\n"@,
        total_cost(seq![Looked::Found(contents)], injected) == injected + text::byte_len(contents),
{
    lemma_expansion_of_mention(token, Looked::Found(contents), injected, more);
    let one = seq![Looked::Found(contents)];
    assert(one.skip(1).len() == 0);
    assert(total_cost(one.skip(1), injected + mention_cost(one[0], injected)) == injected
        + mention_cost(one[0], injected));
    assert(mention_note(token, Looked::Found(contents), injected) =~= "\n[Contents of "@ + token
        + "]\n```\n"@ + contents + "\n```\n"@);
    assert(seq!['@'] + token + ("\n[Contents of "@ + token + "]\n```\n"@ + contents + "\n```\n"@)
        =~= seq!['@'] + token + "\n[Contents of "@ + token + "]\n```\n"@ + contents + "\n```\n"@);
}

proof fn lemma_expansion_of_mention(
    token: Seq<char>,
    looked: Looked,
    injected: int,
    more: Seq<Looked>,
)
    requires
        forall|k: int| 0 <= k < token.len() ==> !text::white(#[trigger] token[k]),
        exists|k: int| 0 <= k < token.len() && (#[trigger] token[k] == '/' || token[k] == '.'),
    ensures
        expansion(seq!['@'] + token, true, injected, seq![looked] + more) == seq!['@'] + token
            + mention_note(token, looked, injected),
{
    let s = seq!['@'] + token;
    let k = choose|k: int| 0 <= k < token.len() && (#[trigger] token[k] == '/' || token[k] == '.');
    assert(token.contains(token[k]));
    lemma_whole_token(token);
    reveal_strlit("@");
    let all = seq![looked] + more;
    assert(all[0] == looked);
    let rest = expansion(
        after_token(s),
        false,
        injected + mention_cost(looked, injected),
        all.skip(1),
    );
    assert(rest =~= Seq::<char>::empty());
    assert(expansion(s, true, injected, all) =~= seq!['@'] + token + mention_note(
        token,
        looked,
        injected,
    ));
}

/// A larger file goes in up to the last whole character that fits into 65536 bytes,
/// with a notice of how many bytes are shown and how many there are.
pub proof fn law_large_files_are_cut(
    token: Seq<char>,
    shown: Seq<char>,
    next: char,
    rest: Seq<char>,
    injected: int,
    more: Seq<Looked>,
)
    requires
        forall|k: int| 0 <= k < token.len() ==> !text::white(#[trigger] token[k]),
        exists|k: int| 0 <= k < token.len() && (#[trigger] token[k] == '/' || token[k] == '.'),
        text::byte_len(shown) <= 65536,
        text::byte_len(shown + seq![next]) > 65536,
        0 <= injected < 262144,
    ensures
        ({
            let contents = shown + seq![next] + rest;
            &&& expansion(
                seq!['@'] + token,
                true,
                injected,
                seq![Looked::Found(contents)] + more,
            ) == seq!['@'] + token + "\n[Contents of "@ + token + "]\n```\n"@ + shown
                + "\n[truncated, showing "@ + text::decimal(text::byte_len(shown)) + " of "@
                + text::decimal(text::byte_len(contents)) + " bytes]"@ + "\n```\n"@
            &&& total_cost(seq![Looked::Found(contents)], injected) == injected + text::byte_len(
                shown,
            )
        }),
{
    let contents = shown + seq![next] + rest;
    let cap = 65536int;
    lemma_expansion_of_mention(token, Looked::Found(contents), injected, more);
    law_cut_is_the_longest_that_fits(contents, cap);
    let n = fit_len(contents, cap) as int;
    let m = shown.len() as int;
    assert(contents.take(m) =~= shown);
    assert(contents.take(m + 1) =~= shown + seq![next]);
    assert(contents =~= (shown + seq![next]) + rest);
    text::law_bytes_add_up(shown + seq![next], rest);
    if n > m {
        lemma_bytes_grow(contents, m + 1, n);
    } else if n < m {
        lemma_bytes_grow(contents, n + 1, m);
    }
    assert(capped(contents, cap) == shown);
    let one = seq![Looked::Found(contents)];
    assert(one.skip(1).len() == 0);
    assert(total_cost(one.skip(1), injected + mention_cost(one[0], injected)) == injected
        + mention_cost(one[0], injected));
    let notice = "\n[truncated, showing "@ + text::decimal(text::byte_len(shown)) + " of "@
        + text::decimal(text::byte_len(contents)) + " bytes]"@;
    assert(cut_notice(contents, cap) == notice);
    assert(seq!['@'] + token + mention_note(token, Looked::Found(contents), injected) =~= seq!['@']
        + token + "\n[Contents of "@ + token + "]\n```\n"@ + shown + "\n[truncated, showing "@
        + text::decimal(text::byte_len(shown)) + " of "@ + text::decimal(text::byte_len(contents))
        + " bytes]"@ + "\n```\n"@);
}

proof fn lemma_bytes_grow(s: Seq<char>, m: int, n: int)
    requires
        0 <= m <= n <= s.len(),
    ensures
        text::byte_len(s.take(m)) <= text::byte_len(s.take(n)),
{
    assert(s.take(n) =~= s.take(m) + s.subrange(m, n));
    text::law_bytes_add_up(s.take(m), s.subrange(m, n));
}

/// A mention of which nothing is found is marked as not found, and one behind the
/// turn's budget as skipped; neither puts anything in.
pub proof fn law_missing_and_late_files_are_named(
    token: Seq<char>,
    contents: Seq<char>,
    injected: int,
    more: Seq<Looked>,
)
    requires
        forall|k: int| 0 <= k < token.len() ==> !text::white(#[trigger] token[k]),
        exists|k: int| 0 <= k < token.len() && (#[trigger] token[k] == '/' || token[k] == '.'),
    ensures
        expansion(seq!['@'] + token, true, injected, seq![Looked::NotFound] + more) == seq!['@']
            + token + " (file not found: "@ + token + ")"@,
        total_cost(seq![Looked::NotFound], injected) == injected,
        injected >= 262144 ==> {
            &&& total_cost(seq![Looked::Found(contents)], injected) == injected
            &&& expansion(
                seq!['@'] + token,
                true,
                injected,
                seq![Looked::Found(contents)] + more,
            ) == seq!['@'] + token + " [skipped: per-turn mention budget of "@ + text::decimal(
                262144,
            ) + " bytes already reached, "@ + token + " not injected]"@
        },
{
    lemma_expansion_of_mention(token, Looked::NotFound, injected, more);
    lemma_expansion_of_mention(token, Looked::Found(contents), injected, more);
    let a = seq![Looked::NotFound];
    let b = seq![Looked::Found(contents)];
    assert(a.skip(1).len() == 0 && b.skip(1).len() == 0);
    assert(total_cost(a.skip(1), injected) == injected);
    assert(total_cost(b.skip(1), injected) == injected);
    assert(seq!['@'] + token + (" (file not found: "@ + token + ")"@) =~= seq!['@'] + token
        + " (file not found: "@ + token + ")"@);
    if injected >= 262144 {
        assert(seq!['@'] + token + mention_note(token, Looked::Found(contents), injected)
            =~= seq!['@'] + token + " [skipped: per-turn mention budget of "@ + text::decimal(
            262144,
        ) + " bytes already reached, "@ + token + " not injected]"@);
    }
}

/// A mention without a slash or a dot, and the at sign alone, stay as they are.
pub proof fn law_other_mentions_stay(token: Seq<char>, injected: int, results: Seq<Looked>)
    requires
        forall|k: int| 0 <= k < token.len() ==> !text::white(#[trigger] token[k]),
        forall|k: int| 0 <= k < token.len() ==> #[trigger] token[k] != '/' && token[k] != '.',
    ensures
        expansion(seq!['@'] + token, true, injected, results) == seq!['@'] + token,
{
    law_paths_are_looked_up(token);
    law_texts_without_paths_are_untouched(seq!['@'] + token, true, injected, results);
}

/// Each path that is looked up gets an answer of its own: there are as many answers
/// as paths, and each is one that the look-up gives for its own path.
pub proof fn law_every_path_gets_its_own_answer<F: Fn(&str) -> MentionResolution>(
    resolve: F,
    tokens: Seq<Seq<char>>,
    results: Seq<MentionResolution>,
    i: int,
)
    requires
        answers_of(resolve, tokens, results),
        0 <= i < tokens.len(),
    ensures
        results.len() == tokens.len(),
        exists|t: &str| t@ == tokens[i] && call_ensures(resolve, (t,), results[i]),
        looks(results).len() == results.len(),
        results[i] matches MentionResolution::Found(c) ==> looks(results)[i] == Looked::Found(c@),
        results[i] is NotFound ==> looks(results)[i] is NotFound,
{
    assert(may_answer(resolve, tokens[i], results[i]));
}

} // verus!
