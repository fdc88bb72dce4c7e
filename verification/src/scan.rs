//! Structural scanning of an opaque serialized sub-query.
//!
//! A sub-query travels inside the packet's array as its serialized form,
//! verbatim.  To find where one element ends, the scanner tracks brace and
//! bracket nesting and JSON string regions (with their escapes), byte by
//! byte: an element ends at the first comma, closing bracket or closing
//! brace seen at nesting depth zero outside a string.  A well-formed
//! serialized value is `blob_ok`: non-empty, balanced, and free of such
//! top-level delimiters, so it scans to exactly its own length wherever it
//! is embedded.

use vstd::prelude::*;

use crate::wire::BYTE_BACKSLASH;
use crate::wire::BYTE_COMMA;
use crate::wire::BYTE_LBRACE;
use crate::wire::BYTE_LBRACKET;
use crate::wire::BYTE_QUOTE;
use crate::wire::BYTE_RBRACE;
use crate::wire::BYTE_RBRACKET;

verus! {

/// The scanner's state: nesting depth, and whether the cursor is inside a
/// string region, just after an unconsumed backslash escape.
pub struct ScanSpec {
    pub depth: int,
    pub in_str: bool,
    pub in_esc: bool,
}

/// The state at the start of an element: depth zero, outside any string.
pub open spec fn scan_init() -> ScanSpec {
    ScanSpec { depth: 0, in_str: false, in_esc: false }
}

/// One byte's effect on the scanner's state.
pub open spec fn scan_step(st: ScanSpec, b: u8) -> ScanSpec {
    if st.in_str {
        if st.in_esc {
            ScanSpec { in_esc: false, ..st }
        } else if b == BYTE_BACKSLASH {
            ScanSpec { in_esc: true, ..st }
        } else if b == BYTE_QUOTE {
            ScanSpec { in_str: false, ..st }
        } else {
            st
        }
    } else {
        if b == BYTE_QUOTE {
            ScanSpec { in_str: true, ..st }
        } else if b == BYTE_LBRACE || b == BYTE_LBRACKET {
            ScanSpec { depth: st.depth + 1, ..st }
        } else if b == BYTE_RBRACE || b == BYTE_RBRACKET {
            ScanSpec { depth: st.depth - 1, ..st }
        } else {
            st
        }
    }
}

/// A byte that ends the element in this state.
pub open spec fn scan_stops(st: ScanSpec, b: u8) -> bool {
    st == scan_init() && (b == BYTE_COMMA || b == BYTE_RBRACKET || b == BYTE_RBRACE)
}

/// The state after scanning a byte string.
pub open spec fn scan(st: ScanSpec, s: Seq<u8>) -> ScanSpec
    decreases s.len(),
{
    if s.len() == 0 {
        st
    } else {
        scan(scan_step(st, s[0]), s.drop_first())
    }
}

/// No byte of the string ends the element early.
pub open spec fn scan_ok(st: ScanSpec, s: Seq<u8>) -> bool
    decreases s.len(),
{
    if s.len() == 0 {
        true
    } else {
        !scan_stops(st, s[0]) && scan_ok(scan_step(st, s[0]), s.drop_first())
    }
}

/// A well-formed opaque serialized value: non-empty, it returns the scanner
/// to the start state, and no byte of it ends an element early.  Every
/// serialized JSON value has this shape.
pub open spec fn blob_ok(b: Seq<u8>) -> bool {
    b.len() > 0 && scan_ok(scan_init(), b) && scan(scan_init(), b) == scan_init()
}

/// Scanning a concatenation scans its parts in turn.
pub proof fn lemma_scan_concat(st: ScanSpec, a: Seq<u8>, b: Seq<u8>)
    ensures
        scan(st, a + b) == scan(scan(st, a), b),
        scan_ok(st, a + b) == (scan_ok(st, a) && scan_ok(scan(st, a), b)),
    decreases a.len(),
{
    if a.len() == 0 {
        assert(a + b =~= b);
    } else {
        lemma_scan_concat(scan_step(st, a[0]), a.drop_first(), b);
        assert((a + b).drop_first() =~= a.drop_first() + b);
        assert((a + b)[0] == a[0]);
    }
}

/// Scanning one more byte steps the state once.
pub proof fn lemma_scan_snoc(st: ScanSpec, s: Seq<u8>, x: u8)
    ensures
        scan(st, s.push(x)) == scan_step(scan(st, s), x),
        scan_ok(st, s.push(x)) == (scan_ok(st, s) && !scan_stops(scan(st, s), x)),
{
    assert(s.push(x) =~= s + seq![x]);
    lemma_scan_concat(st, s, seq![x]);
    assert(seq![x].drop_first() =~= Seq::<u8>::empty());
    let st1 = scan(st, s);
    assert(scan(st1, seq![x]) == scan(scan_step(st1, x), seq![x].drop_first()));
    assert(scan(scan_step(st1, x), Seq::<u8>::empty()) == scan_step(st1, x));
    assert(scan_ok(st1, seq![x]) == (!scan_stops(st1, x) && scan_ok(
        scan_step(st1, x),
        seq![x].drop_first(),
    )));
    assert(scan_ok(scan_step(st1, x), Seq::<u8>::empty()));
}

/// Within a string that scans without a stop, no position stops: the byte at
/// any position does not end the element in the state reached there.
pub proof fn lemma_scan_ok_at(st: ScanSpec, s: Seq<u8>, i: int)
    requires
        scan_ok(st, s),
        0 <= i < s.len(),
    ensures
        !scan_stops(scan(st, s.take(i)), s[i]),
        scan_ok(st, s.take(i)),
    decreases i,
{
    if i == 0 {
        assert(s.take(0) =~= Seq::<u8>::empty());
    } else {
        assert(s.drop_first().take(i - 1) =~= s.take(i).drop_first());
        lemma_scan_ok_at(scan_step(st, s[0]), s.drop_first(), i - 1);
        assert(s.take(i)[0] == s[0]);
        assert(scan(st, s.take(i)) == scan(scan_step(st, s[0]), s.take(i).drop_first()));
        assert(s.drop_first()[i - 1] == s[i]);
    }
}

/// Decides whether a byte string is a well-formed opaque serialized value,
/// fit to stand as one element of the packet's array.
pub fn check_blob(b: &Vec<u8>) -> (r: bool)
    ensures
        r == blob_ok(b@),
{
    if b.len() == 0 {
        return false;
    }
    let mut depth: usize = 0;
    let mut in_str: bool = false;
    let mut in_esc: bool = false;
    let mut j: usize = 0;
    proof {
        assert(b@.take(0) =~= Seq::<u8>::empty());
    }
    while j < b.len()
        invariant
            j <= b@.len(),
            in_esc ==> in_str,
            depth <= j,
            scan(scan_init(), b@.take(j as int)) == (ScanSpec {
                depth: depth as int,
                in_str,
                in_esc,
            }),
            scan_ok(scan_init(), b@.take(j as int)),
        decreases b@.len() - j,
    {
        let x = b[j];
        let ghost st = ScanSpec { depth: depth as int, in_str, in_esc };
        if depth == 0 && !in_str && (x == BYTE_COMMA || x == BYTE_RBRACKET || x == BYTE_RBRACE) {
            proof {
                if scan_ok(scan_init(), b@) {
                    lemma_scan_ok_at(scan_init(), b@, j as int);
                }
            }
            return false;
        }
        proof {
            assert(!scan_stops(st, x));
        }
        if in_str {
            if in_esc {
                in_esc = false;
            } else if x == BYTE_BACKSLASH {
                in_esc = true;
            } else if x == BYTE_QUOTE {
                in_str = false;
            }
        } else {
            if x == BYTE_QUOTE {
                in_str = true;
            } else if x == BYTE_LBRACE || x == BYTE_LBRACKET {
                depth += 1;
            } else if x == BYTE_RBRACE || x == BYTE_RBRACKET {
                depth -= 1;
            }
        }
        j += 1;
        proof {
            assert(b@.take(j as int) =~= b@.take(j - 1).push(x));
            lemma_scan_snoc(scan_init(), b@.take(j - 1), x);
        }
    }
    proof {
        assert(b@.take(j as int) =~= b@);
    }
    depth == 0 && !in_str && !in_esc
}

/// Finds the end of the element starting at `start`: the first position at
/// or after `start` whose byte ends the element.  `None` where the input
/// runs out first.
pub fn scan_element(s: &Vec<u8>, start: usize) -> (r: Option<usize>)
    requires
        start <= s@.len(),
    ensures
        match r {
            Some(j) => {
                &&& start <= j < s@.len()
                &&& scan_ok(scan_init(), s@.subrange(start as int, j as int))
                &&& scan(scan_init(), s@.subrange(start as int, j as int)) == scan_init()
                &&& (s@[j as int] == BYTE_COMMA || s@[j as int] == BYTE_RBRACKET || s@[j as int]
                    == BYTE_RBRACE)
            },
            None => scan_ok(scan_init(), s@.subrange(start as int, s@.len() as int)),
        },
{
    let mut depth: usize = 0;
    let mut in_str: bool = false;
    let mut in_esc: bool = false;
    let mut j: usize = start;
    proof {
        assert(s@.subrange(start as int, start as int) =~= Seq::<u8>::empty());
    }
    loop
        invariant
            start <= j <= s@.len(),
            in_esc ==> in_str,
            depth <= j - start,
            scan(scan_init(), s@.subrange(start as int, j as int)) == (ScanSpec {
                depth: depth as int,
                in_str,
                in_esc,
            }),
            scan_ok(scan_init(), s@.subrange(start as int, j as int)),
        decreases s@.len() - j,
    {
        if j >= s.len() {
            return None;
        }
        let b = s[j];
        let ghost st = ScanSpec { depth: depth as int, in_str, in_esc };
        if depth == 0 && !in_str && (b == BYTE_COMMA || b == BYTE_RBRACKET || b == BYTE_RBRACE) {
            return Some(j);
        }
        proof {
            assert(!scan_stops(st, b));
        }
        if in_str {
            if in_esc {
                in_esc = false;
            } else if b == BYTE_BACKSLASH {
                in_esc = true;
            } else if b == BYTE_QUOTE {
                in_str = false;
            }
        } else {
            if b == BYTE_QUOTE {
                in_str = true;
            } else if b == BYTE_LBRACE || b == BYTE_LBRACKET {
                depth += 1;
            } else if b == BYTE_RBRACE || b == BYTE_RBRACKET {
                depth -= 1;
            }
        }
        j += 1;
        proof {
            assert(s@.subrange(start as int, j as int) =~= s@.subrange(
                start as int,
                j - 1,
            ).push(b));
            lemma_scan_snoc(scan_init(), s@.subrange(start as int, j - 1), b);
        }
    }
}

} // verus!
