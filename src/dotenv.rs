//! `KEY=VALUE` configuration text.
use vstd::prelude::*;
use crate::context::{Context, lemma_insert_pair, pairs_map};
use crate::error::ResolveError;

verus! {

/// `i` is the place of the first `d` in `s`.
pub open spec fn is_first(s: Seq<char>, d: char, i: int) -> bool {
    &&& 0 <= i < s.len()
    &&& s[i] == d
    &&& forall|j: int| 0 <= j < i ==> s[j] != d
}

/// `s` cut at its first `d` into what stands before and after it, if `s`
/// holds a `d`.
pub open spec fn split_once_spec(s: Seq<char>, d: char) -> Option<(Seq<char>, Seq<char>)> {
    if exists|i: int| is_first(s, d, i) {
        let i = choose|i: int| is_first(s, d, i);
        Some((s.subrange(0, i), s.subrange(i + 1, s.len() as int)))
    } else {
        None
    }
}

/// A line without the carriage return that ended it.
pub open spec fn strip_cr(line: Seq<char>) -> Seq<char> {
    if line.len() > 0 && line.last() == '\r' {
        line.drop_last()
    } else {
        line
    }
}

/// The lines of a text: each ends at a line feed, which is dropped together
/// with a carriage return just before it; a text that ends with a line feed
/// has no empty last line.
pub open spec fn lines_of(s: Seq<char>) -> Seq<Seq<char>>
    decreases s.len(),
{
    if s.len() == 0 {
        seq![]
    } else if exists|i: int| is_first(s, '\n', i) {
        let i = choose|i: int| is_first(s, '\n', i);
        seq![strip_cr(s.subrange(0, i))] + lines_of(s.subrange(i + 1, s.len() as int))
    } else {
        seq![s]
    }
}

/// The bindings that a list of `KEY=VALUE` lines makes, a later line winning
/// over an earlier one with the same key; none where a line has no `=`.
pub open spec fn bindings_of_lines(ls: Seq<Seq<char>>) -> Option<Map<Seq<char>, Seq<char>>>
    decreases ls.len(),
{
    if ls.len() == 0 {
        Some(Map::empty())
    } else {
        match (bindings_of_lines(ls.drop_last()), split_once_spec(ls.last(), '=')) {
            (Some(m), Some((k, v))) => Some(m.insert(k, v)),
            _ => None,
        }
    }
}

/// The bindings of a configuration text.
pub open spec fn dotenv_of(text: Seq<char>) -> Option<Map<Seq<char>, Seq<char>>> {
    bindings_of_lines(lines_of(text))
}

proof fn lemma_first_chosen(s: Seq<char>, d: char, i: int)
    requires
        is_first(s, d, i),
    ensures
        (choose|j: int| is_first(s, d, j)) == i,
{
    let j = choose|j: int| is_first(s, d, j);
    assert(is_first(s, d, j));
    if j < i {
        assert(s[j] != d);
    } else if j > i {
        assert(s[i] != d);
    }
}

proof fn lemma_lines_step(s: Seq<char>, i: int)
    requires
        is_first(s, '\n', i),
    ensures
        lines_of(s) == seq![strip_cr(s.subrange(0, i))] + lines_of(
            s.subrange(i + 1, s.len() as int),
        ),
{
    lemma_first_chosen(s, '\n', i);
}

proof fn lemma_lines_last(s: Seq<char>)
    requires
        s.len() > 0,
        forall|j: int| 0 <= j < s.len() ==> s[j] != '\n',
    ensures
        lines_of(s) == seq![s],
{
    assert(!exists|i: int| is_first(s, '\n', i));
}

proof fn lemma_bindings_fail_extends(a: Seq<Seq<char>>, b: Seq<Seq<char>>)
    requires
        bindings_of_lines(a) is None,
    ensures
        bindings_of_lines(a + b) is None,
    decreases b.len(),
{
    if b.len() > 0 {
        assert((a + b).drop_last() =~= a + b.drop_last());
        lemma_bindings_fail_extends(a, b.drop_last());
    } else {
        assert(a + b =~= a);
    }
}

/// Cuts `s` at the first `delim` into what stands before and after it.
pub fn split_once(s: &str, delim: char) -> (r: Option<(&str, &str)>)
    ensures
        match split_once_spec(s@, delim) {
            Some((a, b)) => r matches Some((x, y)) && x@ == a && y@ == b,
            None => r is None,
        },
{
    let n = s.unicode_len();
    let mut i: usize = 0;
    while i < n
        invariant
            n == s@.len(),
            i <= n,
            forall|j: int| 0 <= j < i ==> s@[j] != delim,
        decreases n - i,
    {
        if s.get_char(i) == delim {
            proof {
                assert(is_first(s@, delim, i as int));
                lemma_first_chosen(s@, delim, i as int);
            }
            return Some((s.substring_char(0, i), s.substring_char(i + 1, n)));
        }
        i += 1;
    }
    None
}

/// Adds the binding of one configuration line to `ctx`.
fn bind_line(line: &str, ctx: &mut Context) -> (r: Result<(), ResolveError>)
    ensures
        match split_once_spec(line@, '=') {
            Some((k, v)) => r is Ok && pairs_map(final(ctx)@) == pairs_map(old(ctx)@).insert(k, v),
            None => r matches Err(ResolveError::ConfigFileFormat),
        },
{
    match split_once(line, '=') {
        Some((k, v)) => {
            proof {
                lemma_insert_pair(ctx@, k@, v@);
            }
            ctx.insert(String::from_str(k), String::from_str(v));
            Ok(())
        },
        None => Err(ResolveError::ConfigFileFormat),
    }
}

/// Reads the `KEY=VALUE` lines of a configuration text, each cut at its first
/// `=`; a later line wins over an earlier one with the same key.
pub fn read_dot_env(text: &str) -> (r: Result<Context, ResolveError>)
    ensures
        match dotenv_of(text@) {
            Some(m) => r matches Ok(c) && pairs_map(c@) == m,
            None => r matches Err(ResolveError::ConfigFileFormat),
        },
{
    let n = text.unicode_len();
    let mut ctx = Context::new();
    let mut start: usize = 0;
    let mut i: usize = 0;
    let ghost mut done: Seq<Seq<char>> = seq![];
    proof {
        assert(pairs_map(ctx@) =~= Map::<Seq<char>, Seq<char>>::empty());
        assert(text@.subrange(0, n as int) =~= text@);
        assert(done + lines_of(text@) =~= lines_of(text@));
    }
    while i < n
        invariant
            n == text@.len(),
            start <= i <= n,
            forall|j: int| start <= j < i ==> text@[j] != '\n',
            lines_of(text@) == done + lines_of(text@.subrange(start as int, n as int)),
            bindings_of_lines(done) == Some(pairs_map(ctx@)),
        decreases n - i,
    {
        if text.get_char(i) == '\n' {
            let ghost rest = text@.subrange(start as int, n as int);
            let end = if i > start && text.get_char(i - 1) == '\r' {
                i - 1
            } else {
                i
            };
            let line = text.substring_char(start, end);
            proof {
                assert(is_first(rest, '\n', i - start));
                lemma_lines_step(rest, i - start);
                assert(line@ =~= strip_cr(rest.subrange(0, i - start)));
                assert(rest.subrange(i - start + 1, rest.len() as int) =~= text@.subrange(
                    i + 1,
                    n as int,
                ));
                assert(done + lines_of(rest) =~= done.push(line@) + lines_of(
                    text@.subrange(i + 1, n as int),
                ));
                assert(done.push(line@).drop_last() =~= done);
            }
            let res = bind_line(line, &mut ctx);
            if res.is_err() {
                proof {
                    lemma_bindings_fail_extends(
                        done.push(line@),
                        lines_of(text@.subrange(i + 1, n as int)),
                    );
                }
                return Err(ResolveError::ConfigFileFormat);
            }
            proof {
                done = done.push(line@);
            }
            start = i + 1;
        }
        i += 1;
    }
    if start < n {
        let line = text.substring_char(start, n);
        proof {
            lemma_lines_last(line@);
            assert(done.push(line@).drop_last() =~= done);
            assert(done + seq![line@] =~= done.push(line@));
        }
        let res = bind_line(line, &mut ctx);
        if res.is_err() {
            return Err(ResolveError::ConfigFileFormat);
        }
    } else {
        proof {
            assert(text@.subrange(start as int, n as int) =~= Seq::<char>::empty());
            assert(done + seq![] =~= done);
        }
    }
    Ok(ctx)
}

} // verus!
