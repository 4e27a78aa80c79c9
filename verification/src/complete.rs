//! The line-continuation detector: a buffered statement is complete exactly
//! when, after trailing whitespace is removed, it ends with the statement
//! terminator `;`.

use vstd::prelude::*;
use crate::text::{is_space_char, unicode_space, trimmed_end};

verus! {

/// A statement is complete when it ends with `;` once trailing whitespace
/// is ignored.
pub open spec fn spec_is_complete(s: Seq<char>) -> bool {
    trimmed_end(s).len() > 0 && trimmed_end(s).last() == ';'
}

/// Whether `line` is a complete statement: true exactly when the line,
/// after trimming trailing whitespace, ends with `;`.
pub fn is_complete(line: &str) -> (r: bool)
    ensures
        r == spec_is_complete(line@),
{
    let n = line.unicode_len();
    let mut i = n;
    proof {
        assert(line@.take(n as int) =~= line@);
    }
    while i > 0
        invariant
            i <= n,
            n == line@.len(),
            trimmed_end(line@) == trimmed_end(line@.take(i as int)),
        decreases i,
    {
        let c = line.get_char(i - 1);
        if is_space_char(c) {
            proof {
                assert(line@.take(i as int).drop_last() =~= line@.take(i - 1));
                assert(line@.take(i as int).last() == c);
            }
            i = i - 1;
        } else {
            proof {
                assert(line@.take(i as int).last() == c);
                assert(trimmed_end(line@.take(i as int)) == line@.take(i as int));
            }
            return c == ';';
        }
    }
    proof {
        assert(line@.take(0) =~= Seq::<char>::empty());
    }
    false
}

/// A complete statement with its terminator and any trailing whitespace
/// removed; an incomplete statement unchanged. Dispatch identifies the
/// command name and its arguments on this form, so `help;` names `help`.
pub open spec fn spec_strip_term(s: Seq<char>) -> Seq<char> {
    if spec_is_complete(s) {
        trimmed_end(s).drop_last()
    } else {
        s
    }
}

/// Strips the statement terminator (and trailing whitespace before it)
/// from a complete statement; leaves an incomplete one unchanged.
pub fn strip_terminator(line: &str) -> (r: &str)
    ensures
        r@ == spec_strip_term(line@),
{
    let n = line.unicode_len();
    let mut i = n;
    proof {
        assert(line@.take(n as int) =~= line@);
    }
    while i > 0
        invariant
            i <= n,
            n == line@.len(),
            trimmed_end(line@) == trimmed_end(line@.take(i as int)),
            forall|k: int| i <= k < n ==> unicode_space(line@[k]),
        decreases i,
    {
        let c = line.get_char(i - 1);
        if is_space_char(c) {
            proof {
                assert(line@.take(i as int).drop_last() =~= line@.take(i - 1));
                assert(line@.take(i as int).last() == c);
            }
            i = i - 1;
        } else {
            proof {
                assert(line@.take(i as int).last() == c);
                assert(trimmed_end(line@.take(i as int)) == line@.take(i as int));
            }
            if c == ';' {
                let r = line.substring_char(0, i - 1);
                proof {
                    assert(line@.take(i as int).drop_last() =~= line@.subrange(0, i - 1));
                    assert(r@ == spec_strip_term(line@));
                }
                return r;
            } else {
                return line;
            }
        }
    }
    proof {
        assert(line@.take(0) =~= Seq::<char>::empty());
    }
    line
}

} // verus!
