//! The term reader: splits raw source text into balanced top-level terms
//! by tracking parenthesis depth character by character. Line breaks are
//! dropped, as a line-oriented reader drops them; every character at
//! depth zero ends a term of its own.

use vstd::prelude::*;

use crate::exp::toks_view;
use crate::num::push_char;
use crate::utils::exceptions::ReaderError;

verus! {

/// One pass of the reader from character `i` with the given open-bracket
/// depth, the term gathered so far, and the terms already produced.
/// A closer below depth zero and an unclosed opener at the end are the
/// two errors.
pub open spec fn reader_scan(
    cs: Seq<char>,
    i: int,
    depth: int,
    term: Seq<char>,
    acc: Seq<Seq<char>>,
) -> Result<Seq<Seq<char>>, ReaderError>
    decreases cs.len() - i,
    when 0 <= i <= cs.len()
{
    if i >= cs.len() {
        if depth > 0 {
            Err(ReaderError::MissingSymbol(')'))
        } else {
            Ok(acc)
        }
    } else {
        let c = cs[i];
        if c == '\n' || c == '\r' {
            reader_scan(cs, i + 1, depth, term, acc)
        } else {
            let term2 = term.push(c);
            if c == '(' {
                reader_scan(cs, i + 1, depth + 1, term2, acc)
            } else if c == ')' {
                if depth - 1 < 0 {
                    Err(ReaderError::UnexpectedSymbol(')'))
                } else if depth - 1 == 0 {
                    reader_scan(cs, i + 1, 0, Seq::<char>::empty(), acc.push(term2))
                } else {
                    reader_scan(cs, i + 1, depth - 1, term2, acc)
                }
            } else {
                if depth == 0 {
                    reader_scan(cs, i + 1, 0, Seq::<char>::empty(), acc.push(term2))
                } else {
                    reader_scan(cs, i + 1, depth, term2, acc)
                }
            }
        }
    }
}

/// Extracts the sequence of balanced top-level terms from source text.
pub fn from_reader(text: &str) -> (r: Result<Vec<String>, ReaderError>)
    ensures
        ({
            let res = reader_scan(text@, 0, 0, Seq::<char>::empty(), Seq::<Seq<char>>::empty());
            match r {
                Ok(terms) => res matches Ok(ts) && toks_view(terms@) == ts,
                Err(e) => res matches Err(ev) && e == ev,
            }
        }),
{
    let n: usize = text.unicode_len();
    let mut terms: Vec<String> = Vec::new();
    let mut term: String = String::new();
    let mut depth: usize = 0;
    let mut i: usize = 0;
    proof {
        assert(toks_view(terms@) =~= Seq::<Seq<char>>::empty());
    }
    while i < n
        invariant
            i <= n,
            n == text@.len(),
            depth <= i,
            reader_scan(text@, i as int, depth as int, term@, toks_view(terms@)) == reader_scan(
                text@,
                0,
                0,
                Seq::<char>::empty(),
                Seq::<Seq<char>>::empty(),
            ),
        decreases n - i,
    {
        let ghost acc_before: Seq<Seq<char>> = toks_view(terms@);
        let c: char = text.get_char(i);
        if c == '\n' || c == '\r' {
        } else {
            push_char(&mut term, c);
            if c == '(' {
                depth += 1;
            } else if c == ')' {
                if depth == 0 {
                    return Err(ReaderError::UnexpectedSymbol(')'));
                }
                depth -= 1;
                if depth == 0 {
                    let ghost t2: Seq<char> = term@;
                    terms.push(term);
                    term = String::new();
                    proof {
                        assert(toks_view(terms@) =~= acc_before.push(t2));
                    }
                }
            } else {
                if depth == 0 {
                    let ghost t2: Seq<char> = term@;
                    terms.push(term);
                    term = String::new();
                    proof {
                        assert(toks_view(terms@) =~= acc_before.push(t2));
                    }
                }
            }
        }
        i += 1;
    }
    if depth > 0 {
        return Err(ReaderError::MissingSymbol(')'));
    }
    Ok(terms)
}

} // verus!
