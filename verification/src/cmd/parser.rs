//! Tokenizing command lines and splitting them into pipelines.

use vstd::prelude::*;
use crate::text::{from_chars, to_chars};

verus! {

/// Whether a character has the Unicode White_Space property, as
/// `char::is_whitespace` decides.
pub open spec fn is_ws(c: char) -> bool {
    let u = c as u32;
    (0x9 <= u <= 0xd) || u == 0x20 || u == 0x85 || u == 0xa0 || u == 0x1680 || (0x2000 <= u
        <= 0x200a) || u == 0x2028 || u == 0x2029 || u == 0x202f || u == 0x205f || u == 0x3000
}

/// `char::is_whitespace`.
pub fn is_whitespace(c: char) -> (r: bool)
    ensures
        r == is_ws(c),
{
    let u = c as u32;
    (0x9 <= u && u <= 0xd) || u == 0x20 || u == 0x85 || u == 0xa0 || u == 0x1680 || (0x2000 <= u
        && u <= 0x200a) || u == 0x2028 || u == 0x2029 || u == 0x202f || u == 0x205f || u == 0x3000
}

/// The sequence without leading white space.
pub open spec fn trim_start(s: Seq<char>) -> Seq<char>
    decreases s.len(),
{
    if s.len() > 0 && is_ws(s[0]) {
        trim_start(s.drop_first())
    } else {
        s
    }
}

/// The sequence without trailing white space.
pub open spec fn trim_end(s: Seq<char>) -> Seq<char>
    decreases s.len(),
{
    if s.len() > 0 && is_ws(s.last()) {
        trim_end(s.drop_last())
    } else {
        s
    }
}

/// The sequence without leading or trailing white space (`str::trim`).
pub open spec fn trim(s: Seq<char>) -> Seq<char> {
    trim_end(trim_start(s))
}

/// `str::trim` on a character vector.
pub fn trim_chars(s: &Vec<char>) -> (r: Vec<char>)
    ensures
        r@ == trim(s@),
{
    let mut start: usize = 0;
    assert(s@.skip(0) =~= s@);
    while start < s.len() && is_whitespace(s[start])
        invariant
            start <= s@.len(),
            trim_start(s@) == trim_start(s@.skip(start as int)),
        decreases s.len() - start,
    {
        proof {
            assert(s@.skip(start as int).drop_first() =~= s@.skip(start + 1));
        }
        start += 1;
    }
    proof {
        if start < s@.len() {
            assert(s@.skip(start as int)[0] == s@[start as int]);
        }
        assert(trim_start(s@) == s@.skip(start as int));
    }
    let mut end: usize = s.len();
    while end > start && is_whitespace(s[end - 1])
        invariant
            start <= end <= s@.len(),
            trim(s@) == trim_end(s@.subrange(start as int, end as int)),
        decreases end,
    {
        proof {
            assert(s@.subrange(start as int, end as int).drop_last() =~= s@.subrange(
                start as int,
                end - 1,
            ));
        }
        end -= 1;
    }
    let mut r: Vec<char> = Vec::new();
    let mut i: usize = start;
    while i < end
        invariant
            start <= i <= end <= s@.len(),
            r@ == s@.subrange(start as int, i as int),
        decreases end - i,
    {
        r.push(s[i]);
        proof {
            assert(r@ =~= s@.subrange(start as int, i + 1));
        }
        i += 1;
    }
    r
}

/// The state of the tokenizer after some characters.
pub struct TokState {
    pub tokens: Seq<Seq<char>>,
    pub current: Seq<char>,
    pub in_single: bool,
    pub in_double: bool,
    pub escape_next: bool,
}

/// One character of tokenizing: a backslash (outside single quotes)
/// escapes the next character; single and double quotes toggle quoting
/// (each inside the other is literal); a space or tab outside quotes ends
/// the current token; anything else is part of the token.
pub open spec fn tok_step(st: TokState, ch: char) -> TokState {
    if st.escape_next {
        TokState { current: st.current.push(ch), escape_next: false, ..st }
    } else if ch == '\\' && !st.in_single {
        TokState { escape_next: true, ..st }
    } else if ch == '\'' && !st.in_double {
        TokState { in_single: !st.in_single, ..st }
    } else if ch == '"' && !st.in_single {
        TokState { in_double: !st.in_double, ..st }
    } else if (ch == ' ' || ch == '\t') && !st.in_single && !st.in_double {
        if st.current.len() > 0 {
            TokState { tokens: st.tokens.push(st.current), current: Seq::empty(), ..st }
        } else {
            st
        }
    } else {
        TokState { current: st.current.push(ch), ..st }
    }
}

/// The tokenizer's state after all of `s`.
pub open spec fn tok_run(s: Seq<char>) -> TokState
    decreases s.len(),
{
    if s.len() == 0 {
        TokState {
            tokens: Seq::empty(),
            current: Seq::empty(),
            in_single: false,
            in_double: false,
            escape_next: false,
        }
    } else {
        tok_step(tok_run(s.drop_last()), s.last())
    }
}

/// The tokens of a command line: the finished tokens, and the token in
/// progress at the end if it is not empty.
pub open spec fn tokens_of(s: Seq<char>) -> Seq<Seq<char>> {
    let st = tok_run(s);
    if st.current.len() > 0 {
        st.tokens.push(st.current)
    } else {
        st.tokens
    }
}

fn tokenize_chars(chars: &Vec<char>) -> (r: Vec<String>)
    ensures
        r.deep_view() == tokens_of(chars@),
{
    let mut tokens: Vec<String> = Vec::new();
    let mut current: Vec<char> = Vec::new();
    let mut in_single = false;
    let mut in_double = false;
    let mut escape_next = false;
    let mut i: usize = 0;
    proof {
        assert(chars@.take(0) =~= Seq::<char>::empty());
        assert(tokens.deep_view() =~= Seq::<Seq<char>>::empty());
        assert(current@ =~= Seq::<char>::empty());
    }
    while i < chars.len()
        invariant
            i <= chars@.len(),
            tok_run(chars@.take(i as int)) == (TokState {
                tokens: tokens.deep_view(),
                current: current@,
                in_single,
                in_double,
                escape_next,
            }),
        decreases chars.len() - i,
    {
        let ch = chars[i];
        proof {
            assert(chars@.take(i + 1).drop_last() =~= chars@.take(i as int));
        }
        if escape_next {
            current.push(ch);
            escape_next = false;
        } else if ch == '\\' && !in_single {
            escape_next = true;
        } else if ch == '\'' && !in_double {
            in_single = !in_single;
        } else if ch == '"' && !in_single {
            in_double = !in_double;
        } else if (ch == ' ' || ch == '\t') && !in_single && !in_double {
            if current.len() > 0 {
                let ghost before = tokens.deep_view();
                tokens.push(from_chars(current.as_slice()));
                proof {
                    assert(tokens.deep_view() =~= before.push(current@));
                }
                current = Vec::new();
            }
        } else {
            current.push(ch);
        }
        i += 1;
    }
    proof {
        assert(chars@.take(chars@.len() as int) =~= chars@);
    }
    if current.len() > 0 {
        let ghost before = tokens.deep_view();
        tokens.push(from_chars(current.as_slice()));
        proof {
            assert(tokens.deep_view() =~= before.push(current@));
        }
    }
    tokens
}

/// Tokenizes a command line, respecting quotes and backslash escapes.
pub fn tokenize(input: &str) -> (r: Vec<String>)
    ensures
        r.deep_view() == tokens_of(input@),
{
    let chars = to_chars(input);
    tokenize_chars(&chars)
}

/// A command and its arguments.
#[derive(Debug)]
pub struct ParsedCommand {
    pub program: String,
    pub args: Vec<String>,
}

/// Commands joined by pipes.
#[derive(Debug)]
pub struct Pipeline {
    pub commands: Vec<ParsedCommand>,
}

/// The state of pipe splitting after some characters.
pub struct PipeState {
    pub segments: Seq<Seq<char>>,
    pub current: Seq<char>,
    pub in_single: bool,
    pub in_double: bool,
}

/// One character of pipe splitting: quotes toggle quoting, a `|` outside
/// quotes ends a segment, every other character (quotes included) stays in
/// the segment.
pub open spec fn pipe_step(st: PipeState, ch: char) -> PipeState {
    if ch == '\'' && !st.in_double {
        PipeState { in_single: !st.in_single, current: st.current.push(ch), ..st }
    } else if ch == '"' && !st.in_single {
        PipeState { in_double: !st.in_double, current: st.current.push(ch), ..st }
    } else if ch == '|' && !st.in_single && !st.in_double {
        PipeState { segments: st.segments.push(st.current), current: Seq::empty(), ..st }
    } else {
        PipeState { current: st.current.push(ch), ..st }
    }
}

pub open spec fn pipe_run(s: Seq<char>) -> PipeState
    decreases s.len(),
{
    if s.len() == 0 {
        PipeState {
            segments: Seq::empty(),
            current: Seq::empty(),
            in_single: false,
            in_double: false,
        }
    } else {
        pipe_step(pipe_run(s.drop_last()), s.last())
    }
}

/// The segments of a line between unquoted pipes.
pub open spec fn pipe_segments(s: Seq<char>) -> Seq<Seq<char>> {
    let st = pipe_run(s);
    st.segments.push(st.current)
}

fn split_on_pipes(chars: &Vec<char>) -> (r: Vec<Vec<char>>)
    ensures
        r@.len() == pipe_segments(chars@).len(),
        forall|i: int| 0 <= i < r@.len() ==> #[trigger] r@[i]@ == pipe_segments(chars@)[i],
{
    let mut segments: Vec<Vec<char>> = Vec::new();
    let mut current: Vec<char> = Vec::new();
    let mut in_single = false;
    let mut in_double = false;
    let mut i: usize = 0;
    proof {
        assert(chars@.take(0) =~= Seq::<char>::empty());
    }
    while i < chars.len()
        invariant
            i <= chars@.len(),
            pipe_run(chars@.take(i as int)).current == current@,
            pipe_run(chars@.take(i as int)).in_single == in_single,
            pipe_run(chars@.take(i as int)).in_double == in_double,
            pipe_run(chars@.take(i as int)).segments.len() == segments@.len(),
            forall|j: int|
                0 <= j < segments@.len() ==> #[trigger] segments@[j]@ == pipe_run(
                    chars@.take(i as int),
                ).segments[j],
        decreases chars.len() - i,
    {
        let ch = chars[i];
        proof {
            assert(chars@.take(i + 1).drop_last() =~= chars@.take(i as int));
        }
        if ch == '\'' && !in_double {
            in_single = !in_single;
            current.push(ch);
        } else if ch == '"' && !in_single {
            in_double = !in_double;
            current.push(ch);
        } else if ch == '|' && !in_single && !in_double {
            segments.push(current);
            current = Vec::new();
        } else {
            current.push(ch);
        }
        i += 1;
    }
    proof {
        assert(chars@.take(chars@.len() as int) =~= chars@);
    }
    segments.push(current);
    segments
}

/// The command of a segment: its first token and the rest, if it has any
/// token after trimming.
pub open spec fn segment_command(seg: Seq<char>) -> Option<(Seq<char>, Seq<Seq<char>>)> {
    let toks = tokens_of(trim(seg));
    if toks.len() == 0 {
        None
    } else {
        Some((toks[0], toks.drop_first()))
    }
}

/// The commands of the segments that have one, in order.
pub open spec fn commands_of(segs: Seq<Seq<char>>) -> Seq<(Seq<char>, Seq<Seq<char>>)>
    decreases segs.len(),
{
    if segs.len() == 0 {
        Seq::empty()
    } else {
        let rest = commands_of(segs.drop_last());
        match segment_command(segs.last()) {
            Some(c) => rest.push(c),
            None => rest,
        }
    }
}

impl View for ParsedCommand {
    type V = (Seq<char>, Seq<Seq<char>>);

    open spec fn view(&self) -> (Seq<char>, Seq<Seq<char>>) {
        (self.program@, self.args.deep_view())
    }
}

impl Pipeline {
    /// The commands as (program, arguments) pairs.
    pub open spec fn spec_commands(&self) -> Seq<(Seq<char>, Seq<Seq<char>>)> {
        self.commands@.map_values(|c: ParsedCommand| c@)
    }
}

/// Splits a command line on unquoted pipes and tokenizes each segment;
/// segments without tokens are dropped.
pub fn parse_pipeline(input: &str) -> (r: Pipeline)
    ensures
        r.spec_commands() == commands_of(pipe_segments(input@)),
{
    let chars = to_chars(input);
    let segments = split_on_pipes(&chars);
    let ghost segs = pipe_segments(chars@);
    let mut commands: Vec<ParsedCommand> = Vec::new();
    let mut i: usize = 0;
    proof {
        assert(segs.take(0) =~= Seq::<Seq<char>>::empty());
        assert(commands@.map_values(|c: ParsedCommand| c@) =~= Seq::<(Seq<char>, Seq<Seq<char>>)>::empty());
    }
    while i < segments.len()
        invariant
            i <= segments@.len(),
            segments@.len() == segs.len(),
            forall|j: int| 0 <= j < segments@.len() ==> #[trigger] segments@[j]@ == segs[j],
            commands@.map_values(|c: ParsedCommand| c@) == commands_of(segs.take(i as int)),
        decreases segments.len() - i,
    {
        let trimmed = trim_chars(&segments[i]);
        let mut tokens = tokenize_chars(&trimmed);
        proof {
            assert(segs.take(i + 1).drop_last() =~= segs.take(i as int));
            assert(segs.take(i + 1).last() == segments@[i as int]@);
        }
        if tokens.len() > 0 {
            let ghost toks = tokens.deep_view();
            let program = tokens.remove(0);
            proof {
                assert(tokens.deep_view() =~= toks.drop_first());
            }
            let ghost before = commands@.map_values(|c: ParsedCommand| c@);
            commands.push(ParsedCommand { program, args: tokens });
            proof {
                assert(commands@.map_values(|c: ParsedCommand| c@) =~= before.push(
                    (toks[0], toks.drop_first()),
                ));
            }
        }
        i += 1;
    }
    proof {
        assert(segs.take(segs.len() as int) =~= segs);
    }
    Pipeline { commands }
}

} // verus!
