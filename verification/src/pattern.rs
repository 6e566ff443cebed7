//! Regular expressions, compiled and matched by the `regex` crate, and the
//! glob patterns of `find`, which are turned into regular expressions.

use vstd::prelude::*;
use crate::text::{from_chars, to_chars};

verus! {

/// What compiling a regular expression gives: `Ok` when the crate accepts
/// it, else the text of the crate's error.
pub uninterp spec fn regex_compiled(pattern: Seq<char>) -> Result<(), Seq<char>>;

/// Whether a compiled regular expression matches somewhere in a text.
pub uninterp spec fn regex_matches(pattern: Seq<char>, text: Seq<char>) -> bool;

#[verifier::external_type_specification]
#[verifier::external_body]
pub struct ExRegex(regex::Regex);

/// A compiled regular expression together with its source.
pub struct Pattern {
    re: regex::Regex,
    source: String,
}

impl View for Pattern {
    type V = Seq<char>;

    closed spec fn view(&self) -> Seq<char> {
        self.source@
    }
}

/// Compiles `pattern` with `regex::Regex::new`.
///
/// Claims that the outcome is the one named `regex_compiled` for the
/// pattern, and that a compiled pattern keeps its source. Which patterns
/// the crate accepts, and its error texts, are not stated.
#[verifier::external_body]
pub fn compile(pattern: &str) -> (r: Result<Pattern, String>)
    ensures
        match r {
            Ok(p) => regex_compiled(pattern@) == Ok::<(), Seq<char>>(()) && p@ == pattern@,
            Err(msg) => regex_compiled(pattern@) == Err::<(), Seq<char>>(msg@),
        },
{
    match regex::Regex::new(pattern) {
        Ok(re) => Ok(Pattern { re, source: pattern.to_string() }),
        Err(e) => Err(e.to_string()),
    }
}

impl Pattern {
    /// Whether the pattern matches somewhere in `text`, by
    /// `regex::Regex::is_match`.
    ///
    /// Claims that the answer is the one named `regex_matches` for the
    /// pattern's source and the text; what it is on given values is not
    /// stated.
    #[verifier::external_body]
    pub fn is_match(&self, text: &str) -> (r: bool)
        ensures
            r == regex_matches(self@, text@),
    {
        self.re.is_match(text)
    }
}

/// The regular expression of one character of a glob: `.` stands for itself,
/// `*` for any run and `?` for any one character.
pub open spec fn glob_piece(c: char) -> Seq<char> {
    if c == '.' {
        seq!['\\', '.']
    } else if c == '*' {
        seq!['.', '*']
    } else if c == '?' {
        seq!['.']
    } else {
        seq![c]
    }
}

/// The pieces of a glob, one after another.
pub open spec fn glob_body(glob: Seq<char>) -> Seq<char>
    decreases glob.len(),
{
    if glob.len() == 0 {
        Seq::empty()
    } else {
        glob_body(glob.drop_last()) + glob_piece(glob.last())
    }
}

/// The anchored regular expression of a glob.
pub open spec fn glob_regex(glob: Seq<char>) -> Seq<char> {
    seq!['^'] + glob_body(glob) + seq!['$']
}

/// Whether a name matches a glob: its regular expression compiles and
/// matches the name.
pub open spec fn glob_matches(glob: Seq<char>, name: Seq<char>) -> bool {
    regex_compiled(glob_regex(glob)) is Ok && regex_matches(glob_regex(glob), name)
}

/// The anchored regular expression of a glob.
pub fn glob_to_regex(glob: &str) -> (r: String)
    ensures
        r@ == glob_regex(glob@),
{
    let chars = to_chars(glob);
    let mut out: Vec<char> = Vec::new();
    out.push('^');
    let mut i: usize = 0;
    proof {
        assert(chars@.take(0) =~= Seq::<char>::empty());
        assert(out@ =~= seq!['^'] + glob_body(chars@.take(0)));
    }
    while i < chars.len()
        invariant
            i <= chars@.len(),
            chars@ == glob@,
            out@ == seq!['^'] + glob_body(chars@.take(i as int)),
        decreases chars.len() - i,
    {
        let c = chars[i];
        let ghost before = out@;
        if c == '.' {
            out.push('\\');
            out.push('.');
        } else if c == '*' {
            out.push('.');
            out.push('*');
        } else if c == '?' {
            out.push('.');
        } else {
            out.push(c);
        }
        proof {
            assert(chars@.take(i + 1).drop_last() =~= chars@.take(i as int));
            assert(out@ =~= before + glob_piece(c));
        }
        i += 1;
    }
    out.push('$');
    proof {
        assert(chars@.take(chars@.len() as int) =~= chars@);
    }
    from_chars(out.as_slice())
}

/// Whether `name` matches the glob `pattern` (`*` any run, `?` any one
/// character, the whole name).
pub fn glob_match(pattern: &str, name: &str) -> (r: bool)
    ensures
        r == glob_matches(pattern@, name@),
{
    let re = glob_to_regex(pattern);
    match compile(re.as_str()) {
        Ok(p) => p.is_match(name),
        Err(_) => false,
    }
}

} // verus!
