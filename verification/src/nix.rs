//! What `nix-prefetch-url --print-path` reports, read from its output.
use vstd::prelude::*;

use crate::text::{after_first_line, first_line, lemma_line_len, line_end, line_len, trim, trim_str};

verus! {

/// A file that was added to the store: its hash and its store path.
#[derive(Debug)]
pub struct Prefetched {
    pub sha: String,
    pub store_path: String,
}

impl Clone for Prefetched {
    fn clone(&self) -> (r: Self)
        ensures
            r == *self,
    {
        Prefetched { sha: self.sha.clone(), store_path: self.store_path.clone() }
    }
}

/// The hash and store path that the output `out` reports: after trimming white space,
/// its first line and its second line; nothing when it has a single line.
pub open spec fn prefetch_fields(out: Seq<char>) -> Option<(Seq<char>, Seq<char>)> {
    let t = trim(out);
    if line_len(t) < t.len() {
        Some((first_line(t), first_line(after_first_line(t))))
    } else {
        None
    }
}

/// `line` is one whole line of `text` starting at `start`: it has no line feed, and
/// it runs up to a line feed or to the end of `text`.
pub open spec fn is_line_at(text: Seq<char>, start: int, line: Seq<char>) -> bool {
    &&& 0 <= start
    &&& start + line.len() <= text.len()
    &&& text.subrange(start, start + line.len()) == line
    &&& !line.contains('\n')
    &&& (start + line.len() == text.len() || text[start + line.len()] == '\n')
}

/// The fields read from the output are its first two lines after trimming: the hash is
/// the whole first line, which a line feed ends, and the store path the whole line
/// after it. Nothing is read exactly when the trimmed output has no line feed.
pub proof fn lemma_prefetch_fields_lines(out: Seq<char>)
    ensures
        prefetch_fields(out) is None <==> !trim(out).contains('\n'),
        prefetch_fields(out) matches Some(f) ==> {
            &&& is_line_at(trim(out), 0, f.0)
            &&& trim(out)[f.0.len() as int] == '\n'
            &&& is_line_at(trim(out), f.0.len() + 1int, f.1)
        },
{
    let t = trim(out);
    lemma_line_len(t);
    if line_len(t) < t.len() {
        let f0 = first_line(t);
        let rest = after_first_line(t);
        lemma_line_len(rest);
        let f1 = first_line(rest);
        assert(t.subrange(0, f0.len() as int) =~= f0);
        assert forall|j: int| 0 <= j < f0.len() implies f0[j] != '\n' by {}
        assert forall|j: int| 0 <= j < f1.len() implies f1[j] != '\n' by {}
        assert(t.subrange(f0.len() + 1int, f0.len() + 1int + f1.len()) =~= f1);
        if f0.len() + 1 + f1.len() < t.len() {
            assert(t[f0.len() + 1int + f1.len()] == rest[f1.len() as int]);
        }
    }
}

/// Reads the hash and the store path from the output of `nix-prefetch-url --print-path`.
pub fn parse_prefetch_output(stdout: &str) -> (r: Option<Prefetched>)
    ensures
        match prefetch_fields(stdout@) {
            None => r is None,
            Some(fields) => r matches Some(p) && p.sha@ == fields.0 && p.store_path@ == fields.1,
        },
        r is None <==> !trim(stdout@).contains('\n'),
        r matches Some(p) ==> {
            &&& is_line_at(trim(stdout@), 0, p.sha@)
            &&& trim(stdout@)[p.sha@.len() as int] == '\n'
            &&& is_line_at(trim(stdout@), p.sha@.len() + 1int, p.store_path@)
        },
{
    proof {
        lemma_prefetch_fields_lines(stdout@);
    }
    let t = trim_str(stdout);
    let text = t.as_str();
    let n = text.unicode_len();
    assert(text@.skip(0) =~= text@);
    let p = line_end(text, 0);
    proof {
        lemma_line_len(text@);
    }
    if p >= n {
        return None;
    }
    let q = line_end(text, p + 1);
    proof {
        lemma_line_len(text@.skip(p + 1));
    }
    let sha = String::from_str(text.substring_char(0, p));
    let store_path = String::from_str(text.substring_char(p + 1, q));
    assert(sha@ =~= first_line(text@));
    assert(store_path@ =~= first_line(after_first_line(text@)));
    Some(Prefetched { sha, store_path })
}

} // verus!
