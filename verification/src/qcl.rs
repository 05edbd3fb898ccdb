//! Preparing QCL source text for the reader.

use vstd::prelude::*;
use vstd::string::*;
use crate::chars::{chars_of, find, first_at, place, slice, string_of, trim, trimmed, views};
use crate::qasm::{lines, lines_of};

verus! {

/// What is kept of a line: the text before its first semicolon, without the
/// white space around it.
pub open spec fn kept(line: Seq<char>) -> Seq<char> {
    match place(line, ';') {
        Some(at) => trimmed(line.take(at)),
        None => trimmed(line),
    }
}

/// What is kept of the first `n` lines, put together without anything
/// between them.
pub open spec fn kept_upto(all: Seq<Seq<char>>, n: nat) -> Seq<char>
    decreases n,
{
    if n == 0 {
        Seq::empty()
    } else {
        kept_upto(all, (n - 1) as nat) + kept(all[n - 1])
    }
}

/// QCL source without its comments (from a semicolon to the end of the
/// line), without the white space around each line, and without line breaks.
pub fn preprocess_qcl(code: &str) -> (r: String)
    ensures
        r@ == kept_upto(lines_of(code@), lines_of(code@).len()),
{
    let text = chars_of(code);
    let all = lines(&text);
    let mut out: Vec<char> = Vec::new();
    let mut i: usize = 0;
    while i < all.len()
        invariant
            i <= all.len(),
            views(all@) == lines_of(code@),
            out@ == kept_upto(views(all@), i as nat),
        decreases all.len() - i,
    {
        assert(views(all@)[i as int] == all[i as int]@);
        let line = &all[i];
        let code_part = match find(line, ';') {
            Some(at) => {
                let part = slice(line, 0, at);
                assert(part@ =~= line@.take(at as int));
                trim(&part)
            },
            None => trim(line),
        };
        let ghost before = out@;
        let mut k: usize = 0;
        while k < code_part.len()
            invariant
                k <= code_part.len(),
                out@ == before + code_part@.take(k as int),
            decreases code_part.len() - k,
        {
            out.push(code_part[k]);
            assert(code_part@.take(k + 1) =~= code_part@.take(k as int).push(code_part@[k as int]));
            k += 1;
        }
        assert(code_part@.take(code_part.len() as int) =~= code_part@);
        i += 1;
    }
    string_of(&out)
}

} // verus!
