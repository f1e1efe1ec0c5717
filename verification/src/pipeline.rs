//! Parsing of a pipeline of commands, such as `search -s name john | count`.
use vstd::prelude::*;

use crate::text::{chars_of, push_str, string_from_chars, trim_chars, trimmed};

verus! {

/// What `shlex::split` gives back for `input`: the words of a POSIX shell
/// command line, or `None` when the line is not well formed.
pub uninterp spec fn shlex_words(input: Seq<char>) -> Option<Seq<Seq<char>>>;

/// `shlex::split`: splits `input` into words as a POSIX shell would; its
/// result is named, not described.
#[verifier::external_body]
fn shlex_split(input: &str) -> (r: Option<Vec<String>>)
    ensures
        r is None <==> shlex_words(input@) is None,
        r matches Some(v) ==> v@.map_values(|s: String| s@) == shlex_words(input@).unwrap(),
{
    shlex::split(input)
}

/// The pipe token.
pub open spec fn pipe() -> Seq<char> {
    seq!['|']
}

/// A token with the pipes that stick to it taken apart: `|count` gives
/// `|` then `count`, and `search|` gives `search` then `|` (the rest trimmed).
pub open spec fn normalize_token(t: Seq<char>) -> Seq<Seq<char>> {
    if t == pipe() {
        seq![t]
    } else if t.len() > 0 && t[0] == '|' {
        seq![pipe(), trimmed(t.drop_first())]
    } else if t.len() > 0 && t.last() == '|' {
        seq![trimmed(t.drop_last()), pipe()]
    } else {
        seq![t]
    }
}

/// All tokens normalized, in order.
pub open spec fn normalize_tokens(ts: Seq<Seq<char>>) -> Seq<Seq<char>>
    decreases ts.len(),
{
    if ts.len() == 0 {
        Seq::empty()
    } else {
        normalize_tokens(ts.drop_last()) + normalize_token(ts.last())
    }
}

/// The tokens split on pipes: `n` pipes give `n + 1` groups, some of which
/// may be empty.
pub open spec fn split_on_pipes(ts: Seq<Seq<char>>) -> Seq<Seq<Seq<char>>>
    decreases ts.len(),
{
    if ts.len() == 0 {
        seq![Seq::empty()]
    } else {
        let groups = split_on_pipes(ts.drop_last());
        if ts.last() == pipe() {
            groups.push(Seq::empty())
        } else {
            groups.update(groups.len() - 1, groups.last().push(ts.last()))
        }
    }
}

/// A command without its leading `xan`, if any.
pub open spec fn strip_xan(g: Seq<Seq<char>>) -> Seq<Seq<char>> {
    if g.len() > 0 && g[0] == seq!['x', 'a', 'n'] {
        g.drop_first()
    } else {
        g
    }
}

/// The commands of a pipeline whose words are `words`.
pub open spec fn pipeline_of(words: Seq<Seq<char>>) -> Seq<Seq<Seq<char>>> {
    split_on_pipes(normalize_tokens(words)).map_values(|g: Seq<Seq<char>>| strip_xan(g))
}

/// The characters of each string of a command.
pub open spec fn command_view(g: Seq<String>) -> Seq<Seq<char>> {
    g.map_values(|s: String| s@)
}

/// The characters of each string of each command.
pub open spec fn commands_view(v: Seq<Vec<String>>) -> Seq<Seq<Seq<char>>> {
    v.map_values(|g: Vec<String>| command_view(g@))
}

proof fn lemma_split_nonempty(ts: Seq<Seq<char>>)
    ensures
        split_on_pipes(ts).len() >= 1,
    decreases ts.len(),
{
    if ts.len() > 0 {
        lemma_split_nonempty(ts.drop_last());
    }
}

/// The number of pipe tokens.
pub open spec fn count_pipes(ts: Seq<Seq<char>>) -> nat
    decreases ts.len(),
{
    if ts.len() == 0 {
        0
    } else {
        count_pipes(ts.drop_last()) + if ts.last() == pipe() { 1nat } else { 0nat }
    }
}

proof fn lemma_split_shape(ts: Seq<Seq<char>>)
    ensures
        split_on_pipes(ts).len() == count_pipes(ts) + 1,
        forall|g: int, w: int| 0 <= g < split_on_pipes(ts).len() && 0 <= w < split_on_pipes(ts)[g].len()
            ==> #[trigger] split_on_pipes(ts)[g][w] != pipe(),
    decreases ts.len(),
{
    if ts.len() > 0 {
        let t = ts.drop_last();
        lemma_split_shape(t);
        lemma_split_nonempty(t);
        let a = split_on_pipes(ts);
        let b = split_on_pipes(t);
        assert forall|g: int, w: int| 0 <= g < a.len() && 0 <= w < a[g].len() implies #[trigger] a[g][w] != pipe() by {
            if ts.last() == pipe() {
                if g < b.len() {
                    assert(a[g] == b[g]);
                }
            } else {
                if g < b.len() - 1 {
                    assert(a[g] == b[g]);
                } else {
                    assert(a[g] == b[g].push(ts.last()));
                    if w < b[g].len() {
                        assert(a[g][w] == b[g][w]);
                    }
                }
            }
        }
    }
}

/// A pipeline has one command more than it has pipes, and no command holds
/// a pipe.
pub proof fn law_pipeline_shape(words: Seq<Seq<char>>)
    ensures
        pipeline_of(words).len() == count_pipes(normalize_tokens(words)) + 1,
        forall|g: int, w: int| 0 <= g < pipeline_of(words).len() && 0 <= w < pipeline_of(words)[g].len()
            ==> #[trigger] pipeline_of(words)[g][w] != pipe(),
{
    let ts = normalize_tokens(words);
    lemma_split_shape(ts);
    let a = split_on_pipes(ts);
    assert forall|g: int, w: int| 0 <= g < pipeline_of(words).len() && 0 <= w < pipeline_of(words)[g].len()
        implies #[trigger] pipeline_of(words)[g][w] != pipe() by {
        let c = a[g];
        if c.len() > 0 && c[0] == seq!['x', 'a', 'n'] {
            assert(pipeline_of(words)[g][w] == c[w + 1]);
        } else {
            assert(pipeline_of(words)[g][w] == c[w]);
        }
    }
}

fn is_pipe(t: &[char]) -> (r: bool)
    ensures
        r == (t@ == pipe()),
{
    if t.len() == 1 && t[0] == '|' {
        assert(t@ == pipe());
        true
    } else {
        false
    }
}

fn is_xan(t: &[char]) -> (r: bool)
    ensures
        r == (t@ == seq!['x', 'a', 'n']),
{
    if t.len() == 3 && t[0] == 'x' && t[1] == 'a' && t[2] == 'n' {
        assert(t@ == seq!['x', 'a', 'n']);
        true
    } else {
        false
    }
}

fn pipe_string() -> (r: String)
    ensures
        r@ == pipe(),
{
    let mut v: Vec<char> = Vec::new();
    v.push('|');
    string_from_chars(v.as_slice())
}

/// The words with the pipes that stick to them taken apart.
fn normalize_words(raw: &Vec<String>) -> (tokens: Vec<String>)
    ensures
        command_view(tokens@) == normalize_tokens(command_view(raw@)),
{
    let ghost words = command_view(raw@);
    let mut tokens: Vec<String> = Vec::new();
    let mut i: usize = 0;
    while i < raw.len()
        invariant
            i <= raw@.len(),
            command_view(raw@) == words,
            command_view(tokens@) == normalize_tokens(words.take(i as int)),
        decreases raw@.len() - i,
    {
        let token = chars_of(raw[i].as_str());
        let ghost t = token@;
        assert(t == words[i as int]);
        assert(words.take(i + 1).drop_last() == words.take(i as int));
        let ghost before = tokens@;
        if is_pipe(token.as_slice()) {
            tokens.push(pipe_string());
        } else if token.len() > 0 && token[0] == '|' {
            let mut rest: Vec<char> = Vec::new();
            let mut k: usize = 1;
            while k < token.len()
                invariant
                    1 <= k <= token@.len(),
                    rest@ == token@.subrange(1, k as int),
                decreases token@.len() - k,
            {
                rest.push(token[k]);
                k += 1;
            }
            assert(rest@ == t.drop_first());
            tokens.push(pipe_string());
            let trimmed_rest = trim_chars(rest.as_slice());
            tokens.push(string_from_chars(trimmed_rest.as_slice()));
        } else if token.len() > 0 && token[token.len() - 1] == '|' {
            let mut rest: Vec<char> = Vec::new();
            let mut k: usize = 0;
            while k < token.len() - 1
                invariant
                    token@.len() > 0,
                    k + 1 <= token@.len(),
                    rest@ == token@.subrange(0, k as int),
                decreases token@.len() - k,
            {
                rest.push(token[k]);
                k += 1;
            }
            assert(rest@ == t.drop_last());
            let trimmed_rest = trim_chars(rest.as_slice());
            tokens.push(string_from_chars(trimmed_rest.as_slice()));
            tokens.push(pipe_string());
        } else {
            tokens.push(string_from_chars(token.as_slice()));
        }
        assert(command_view(tokens@) =~= command_view(before) + normalize_token(t));
        i += 1;
    }
    assert(words.take(i as int) == words);
    tokens
}

/// The commands that tokens stand for: the tokens split on pipes, each
/// command without its leading `xan`, if any.
fn split_commands(tokens: Vec<String>) -> (r: Vec<Vec<String>>)
    ensures
        commands_view(r@) == split_on_pipes(command_view(tokens@)).map_values(
            |g: Seq<Seq<char>>| strip_xan(g),
        ),
{
    let ghost ts = command_view(tokens@);
    let mut groups: Vec<Vec<String>> = Vec::new();
    let mut current: Vec<String> = Vec::new();
    let mut i: usize = 0;
    assert(ts.take(0) =~= Seq::<Seq<char>>::empty());
    while i < tokens.len()
        invariant
            i <= tokens@.len(),
            ts == command_view(tokens@),
            ({
                let g = split_on_pipes(ts.take(i as int));
                &&& commands_view(groups@) == g.drop_last()
                &&& command_view(current@) == g.last()
            }),
        decreases tokens@.len() - i,
    {
        let ghost g = split_on_pipes(ts.take(i as int));
        proof {
            lemma_split_nonempty(ts.take(i as int));
        }
        assert(ts.take(i + 1).drop_last() == ts.take(i as int));
        assert(ts.take(i + 1).last() == tokens@[i as int]@);
        let token = chars_of(tokens[i].as_str());
        if is_pipe(token.as_slice()) {
            let mut done: Vec<String> = Vec::new();
            std::mem::swap(&mut done, &mut current);
            let ghost before = groups@;
            groups.push(done);
            assert(commands_view(groups@) =~= commands_view(before).push(g.last()));
            assert(command_view(current@) =~= Seq::<Seq<char>>::empty());
        } else {
            let ghost before = current@;
            current.push(string_from_chars(token.as_slice()));
            assert(command_view(current@) =~= command_view(before).push(ts[i as int]));
        }
        i += 1;
    }
    let ghost gs = groups@;
    groups.push(current);
    assert(ts.take(i as int) == ts);
    let ghost all = split_on_pipes(ts);
    proof {
        lemma_split_nonempty(ts);
        assert(commands_view(groups@) =~= commands_view(gs).push(all.last()));
        assert(all.drop_last().push(all.last()) =~= all);
    }
    assert(commands_view(groups@) =~= all);
    let mut out: Vec<Vec<String>> = Vec::new();
    while groups.len() > 0
        invariant
            commands_view(out@) + commands_view(groups@).map_values(|g: Seq<Seq<char>>| strip_xan(g))
                == all.map_values(|g: Seq<Seq<char>>| strip_xan(g)),
        decreases groups@.len(),
    {
        let ghost before_out = out@;
        let ghost before_groups = groups@;
        let mut g = groups.remove(0);
        let ghost gv = command_view(g@);
        let is_x = if g.len() > 0 {
            let first = chars_of(g[0].as_str());
            is_xan(first.as_slice())
        } else {
            false
        };
        if is_x {
            g.remove(0);
            assert(command_view(g@) =~= gv.drop_first());
        }
        out.push(g);
        assert(commands_view(out@) =~= commands_view(before_out).push(strip_xan(gv)));
        assert(commands_view(before_groups) =~= seq![gv] + commands_view(groups@));
        assert(commands_view(out@) + commands_view(groups@).map_values(|g: Seq<Seq<char>>| strip_xan(g))
            =~= commands_view(before_out) + commands_view(before_groups).map_values(|g: Seq<Seq<char>>| strip_xan(g)));
    }
    assert(commands_view(groups@) =~= Seq::<Seq<Seq<char>>>::empty());
    assert(commands_view(out@) =~= commands_view(out@) + Seq::<Seq<Seq<char>>>::empty());
    out
}

/// The commands of a pipeline out of its shell words: the words with stuck
/// pipes taken apart, split on pipes, each command without its leading
/// `xan`, if any.
pub fn pipeline_from_words(words: Vec<String>) -> (r: Vec<Vec<String>>)
    ensures
        commands_view(r@) == pipeline_of(command_view(words@)),
{
    let tokens = normalize_words(&words);
    split_commands(tokens)
}

/// Splits a pipeline into its commands, each a list of words. A command
/// that starts with `xan` loses that word. `Err` when the line is not well
/// formed for a shell.
pub fn parse_pipeline(input: &str) -> (r: Result<Vec<Vec<String>>, String>)
    ensures
        r is Err <==> shlex_words(input@) is None,
        r matches Ok(v) ==> commands_view(v@) == pipeline_of(shlex_words(input@).unwrap()),
        r matches Err(m) ==> m@ == "could not parse pipeline: "@ + input@,
{
    match shlex_split(input) {
        Some(words) => {
            assert(command_view(words@) == shlex_words(input@).unwrap());
            Ok(pipeline_from_words(words))
        },
        None => {
            let mut m = String::new();
            push_str(&mut m, "could not parse pipeline: ");
            push_str(&mut m, input);
            Err(m)
        },
    }
}

} // verus!
