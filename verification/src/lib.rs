//! A permissive, best-effort tag stripper: a single pass over the input
//! removes HTML/XML-like tags and comments and keeps only the plain text.
//! Malformed markup never causes an error; it is resolved by deterministic
//! heuristics (a bare `<` before whitespace is restored, quotes suppress the
//! structural meaning of `<` and `>`, bogus nested brackets are tolerated).

pub mod laws;
pub mod scanner;

use vstd::prelude::*;

verus! {

use crate::scanner::{Scanner, lemma_scan_depth_bound, lemma_scan_snoc, scan, stripped};
use vstd::string::StrSliceExecFns;

/// Remove tags and comments from `html`, returning only the plain text, in
/// input order. The result is exactly the output of the scanner model run
/// over the input characters; the function never fails.
pub fn strip_tags(html: &str) -> (out: String)
    ensures
        out@ == stripped(html@),
{
    let n: usize = html.unicode_len();
    let mut sc = Scanner::new();
    let mut i: usize = 0;
    proof {
        assert(html@.take(0) =~= Seq::<char>::empty());
    }
    while i < n
        invariant
            n == html@.len(),
            i <= n,
            sc@ == scan(html@.take(i as int)),
        decreases n - i,
    {
        let c = html.get_char(i);
        proof {
            lemma_scan_snoc(html@, i as int);
            lemma_scan_depth_bound(html@.take(i as int));
        }
        sc.feed(c);
        i = i + 1;
    }
    proof {
        assert(html@.take(n as int) =~= html@);
    }
    sc.into_output()
}

} // verus!
