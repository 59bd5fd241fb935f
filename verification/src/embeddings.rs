//! Text preparation for semantic embeddings. The embedding model itself is
//! floating-point work and runs outside the library.

use vstd::prelude::*;
use crate::text::{append_chars, chars_of, starts_with, string_of, trim, trim_chars, copy_range};

verus! {

/// Error type for embedding operations.
#[derive(Debug, PartialEq)]
pub enum EmbeddingError {
    /// An I/O failure, with its message.
    Io(String),
    Model(String),
    DimensionMismatch { expected: usize, actual: usize },
    EmptyResponse,
    /// Built without semantic search.
    Disabled,
}

/// `title`, a blank line, then `body`, with surrounding whitespace trimmed.
pub open spec fn embedding_text(title: Seq<char>, body: Seq<char>) -> Seq<char> {
    trim(title + "\n\n"@ + body)
}

fn join_trimmed(title: &str, body: &str) -> (r: String)
    ensures
        r@ == embedding_text(title@, body@),
{
    let mut v = chars_of(title);
    let sep = chars_of("\n\n");
    append_chars(&mut v, &sep);
    let b = chars_of(body);
    append_chars(&mut v, &b);
    let t = trim_chars(&v);
    string_of(&t)
}

/// Text to embed for a problem.
pub fn prepare_problem_text(title: &str, description: &str) -> (r: String)
    ensures
        r@ == embedding_text(title@, description@),
{
    join_trimmed(title, description)
}

/// Text to embed for a solution.
pub fn prepare_solution_text(title: &str, approach: &str) -> (r: String)
    ensures
        r@ == embedding_text(title@, approach@),
{
    join_trimmed(title, approach)
}

/// Text to embed for a critique.
pub fn prepare_critique_text(title: &str, argument: &str) -> (r: String)
    ensures
        r@ == embedding_text(title@, argument@),
{
    join_trimmed(title, argument)
}

/// Text to embed for a milestone.
pub fn prepare_milestone_text(title: &str, description: &str) -> (r: String)
    ensures
        r@ == embedding_text(title@, description@),
{
    join_trimmed(title, description)
}

/// A leading `~/` replaced by the home directory, when one is known.
pub open spec fn home_expanded(path: Seq<char>, home: Option<Seq<char>>) -> Seq<char> {
    if "~/"@.is_prefix_of(path) && home is Some {
        home->0 + "/"@ + path.skip(2)
    } else {
        path
    }
}

/// Expand a leading `~/` to `home` (configuration files are written by hand).
pub fn expand_home(path: &str, home: Option<&str>) -> (r: String)
    ensures
        r@ == home_expanded(
            path@,
            match home {
                Some(h) => Some(h@),
                None => None,
            },
        ),
{
    proof {
        reveal_strlit("~/");
    }
    let pv = chars_of(path);
    let tilde = chars_of("~/");
    if starts_with(&pv, &tilde) {
        if let Some(h) = home {
            let mut out = chars_of(h);
            out.push('/');
            let rest = copy_range(&pv, 2, pv.len());
            append_chars(&mut out, &rest);
            proof {
                reveal_strlit("/");
                assert(rest@ =~= pv@.skip(2));
                assert(out@ =~= h@ + "/"@ + pv@.skip(2));
            }
            return string_of(&out);
        }
    }
    string_of(&pv)
}

} // verus!
