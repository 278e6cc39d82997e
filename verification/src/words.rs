//! The word source: a newline-delimited word list, split into entries, one of
//! which is drawn uniformly at random.

use vstd::prelude::*;
use vstd::string::*;

verus! {

/// Failure of the word source.
#[derive(Copy, Clone, Debug, PartialEq, Eq, Structural)]
pub enum DataError {
    /// The supplied word list has no entries.
    EmptyWordList,
}

/// The position of the first newline in `s`, or `s.len()` when there is none.
pub open spec fn first_newline(s: Seq<char>) -> int
    decreases s.len(),
{
    if s.len() == 0 {
        0
    } else if s[0] == '\n' {
        0
    } else {
        1 + first_newline(s.drop_first())
    }
}

/// A newline-terminated line as reported: a carriage return just before the
/// newline is not part of it.
pub open spec fn strip_cr(l: Seq<char>) -> Seq<char> {
    if l.len() > 0 && l[l.len() - 1] == '\r' {
        l.drop_last()
    } else {
        l
    }
}

/// The lines of `s`: split at every newline, each split-off line without a
/// carriage return just before its newline, and no empty entry after a final
/// newline. A line at the very end without a newline of its own is kept
/// verbatim.
pub open spec fn spec_lines(s: Seq<char>) -> Seq<Seq<char>>
    decreases s.len(),
    via spec_lines_decreases
{
    if s.len() == 0 {
        Seq::empty()
    } else {
        let i = first_newline(s);
        if i == s.len() {
            seq![s]
        } else {
            seq![strip_cr(s.subrange(0, i))] + spec_lines(s.subrange(i + 1, s.len() as int))
        }
    }
}

proof fn lemma_first_newline_bounds(s: Seq<char>)
    ensures
        0 <= first_newline(s) <= s.len(),
        forall|j: int| 0 <= j < first_newline(s) ==> s[j] != '\n',
        first_newline(s) < s.len() ==> s[first_newline(s)] == '\n',
    decreases s.len(),
{
    if s.len() == 0 {
    } else if s[0] == '\n' {
    } else {
        lemma_first_newline_bounds(s.drop_first());
        assert forall|j: int| 0 <= j < first_newline(s) implies s[j] != '\n' by {
            if j > 0 {
                assert(s.drop_first()[j - 1] != '\n');
            }
        };
        if first_newline(s) < s.len() {
            assert(s.drop_first()[first_newline(s) - 1] == '\n');
        }
    }
}

#[via_fn]
proof fn spec_lines_decreases(s: Seq<char>) {
    lemma_first_newline_bounds(s);
}

proof fn lemma_first_newline_at(s: Seq<char>, k: int)
    requires
        0 <= k <= s.len(),
        forall|j: int| 0 <= j < k ==> s[j] != '\n',
        k < s.len() ==> s[k] == '\n',
    ensures
        first_newline(s) == k,
{
    lemma_first_newline_bounds(s);
    let f = first_newline(s);
    if f < k {
        assert(s[f] == '\n');
        assert(s[f] != '\n');
    }
    if k < f {
        assert(s[k] != '\n');
        assert(s[k] == '\n');
    }
}

/// Splitting off the first line: when the first newline of the tail starting
/// at `start` sits at position `i`, the lines of that tail are the stripped
/// line before it followed by the lines after it.
proof fn lemma_line_step(s: Seq<char>, start: int, i: int)
    requires
        0 <= start <= i < s.len(),
        forall|j: int| start <= j < i ==> s[j] != '\n',
        s[i] == '\n',
    ensures
        spec_lines(s.subrange(start, s.len() as int)) == seq![strip_cr(s.subrange(start, i))]
            + spec_lines(s.subrange(i + 1, s.len() as int)),
{
    let t = s.subrange(start, s.len() as int);
    assert forall|j: int| 0 <= j < i - start implies t[j] != '\n' by {
        assert(t[j] == s[start + j]);
    };
    assert(t[i - start] == s[i]);
    lemma_first_newline_at(t, i - start);
    assert(t.subrange(0, i - start) =~= s.subrange(start, i));
    assert(t.subrange(i - start + 1, t.len() as int) =~= s.subrange(i + 1, s.len() as int));
}

/// The tail after the last newline is one verbatim line when it is non-empty,
/// and no line at all when it is empty.
proof fn lemma_last_line(s: Seq<char>, start: int)
    requires
        0 <= start <= s.len(),
        forall|j: int| start <= j < s.len() ==> s[j] != '\n',
    ensures
        start < s.len() ==> spec_lines(s.subrange(start, s.len() as int)) == seq![
            s.subrange(start, s.len() as int),
        ],
        start == s.len() ==> spec_lines(s.subrange(start, s.len() as int)) == Seq::<
            Seq<char>,
        >::empty(),
{
    let t = s.subrange(start, s.len() as int);
    if start < s.len() {
        assert forall|j: int| 0 <= j < t.len() implies t[j] != '\n' by {
            assert(t[j] == s[start + j]);
        };
        lemma_first_newline_at(t, t.len() as int);
    }
}

/// Splits `file` into its lines, one entry per line, in order.
pub fn read_input(file: &str) -> (words: Vec<String>)
    ensures
        words@.len() == spec_lines(file@).len(),
        forall|k: int| 0 <= k < words@.len() ==> #[trigger] words@[k]@ == spec_lines(file@)[k],
{
    let ghost all = spec_lines(file@);
    let n = file.unicode_len();
    let mut words: Vec<String> = Vec::new();
    let mut start: usize = 0;
    let mut i: usize = 0;
    proof {
        assert(file@.subrange(0, n as int) =~= file@);
        assert(all.subrange(0, all.len() as int) =~= all);
    }
    while i < n
        invariant
            start <= i <= n,
            n == file@.len(),
            all == spec_lines(file@),
            forall|j: int| start <= j < i ==> file@[j] != '\n',
            words@.len() <= all.len(),
            forall|k: int| 0 <= k < words@.len() ==> #[trigger] words@[k]@ == all[k],
            spec_lines(file@.subrange(start as int, n as int)) == all.subrange(
                words@.len() as int,
                all.len() as int,
            ),
        decreases n - i,
    {
        if file.get_char(i) == '\n' {
            let end = if i > start && file.get_char(i - 1) == '\r' {
                i - 1
            } else {
                i
            };
            let line = file.substring_char(start, end).to_owned();
            proof {
                lemma_line_step(file@, start as int, i as int);
                let sub = file@.subrange(start as int, i as int);
                if i > start && file@[i - 1] == '\r' {
                    assert(sub[sub.len() - 1] == file@[i - 1]);
                    assert(strip_cr(sub) =~= file@.subrange(start as int, end as int));
                } else {
                    if i > start {
                        assert(sub[sub.len() - 1] == file@[i - 1]);
                    }
                    assert(strip_cr(sub) =~= file@.subrange(start as int, end as int));
                }
                let wlen = words@.len() as int;
                let rest = spec_lines(file@.subrange(i + 1, n as int));
                let tail = all.subrange(wlen, all.len() as int);
                assert(tail == seq![strip_cr(sub)] + rest);
                assert(tail.len() == 1 + rest.len());
                assert(wlen < all.len());
                assert(all[wlen] == tail[0]);
                assert(all[wlen] == line@);
                assert forall|k: int| 0 <= k < rest.len() implies rest[k] == all[wlen + 1 + k] by {
                    assert(rest[k] == tail[k + 1]);
                    assert(tail[k + 1] == all[wlen + 1 + k]);
                };
                assert(rest =~= all.subrange(wlen + 1, all.len() as int));
            }
            words.push(line);
            start = i + 1;
        }
        i += 1;
    }
    proof {
        lemma_last_line(file@, start as int);
    }
    if start < n {
        let line = file.substring_char(start, n).to_owned();
        proof {
            let wlen = words@.len() as int;
            let tail = all.subrange(wlen, all.len() as int);
            assert(tail == seq![file@.subrange(start as int, n as int)]);
            assert(tail.len() == 1);
            assert(wlen < all.len());
            assert(all[wlen] == tail[0]);
            assert(all[wlen] == line@);
            assert(all.len() == wlen + 1);
        }
        words.push(line);
    } else {
        proof {
            assert(file@.subrange(start as int, n as int).len() == 0);
            assert(all.subrange(words@.len() as int, all.len() as int).len() == 0);
        }
    }
    words
}

/// Relies on `rand::rng` and `rand::RngExt::random_range`: a draw from the
/// non-empty range `0..n` returns a value of that range, from the
/// process-wide random generator.
#[verifier::external_body]
fn random_index(n: usize) -> (r: usize)
    requires
        n >= 1,
    ensures
        r < n,
{
    rand::RngExt::random_range(&mut rand::rng(), 0..n)
}

/// Draws one entry of the newline-delimited word list `input`, uniformly at
/// random: the result is one of the list's lines, and the draw succeeds
/// exactly when the list has at least one entry.
pub fn draw_word(input: &str) -> (r: Result<String, DataError>)
    ensures
        r is Ok <==> spec_lines(input@).len() > 0,
        r matches Ok(w) ==> spec_lines(input@).contains(w@),
        r matches Err(e) ==> e == DataError::EmptyWordList,
{
    let words = read_input(input);
    if words.len() == 0 {
        Err(DataError::EmptyWordList)
    } else {
        let idx = random_index(words.len());
        let word = words[idx].clone();
        proof {
            assert(spec_lines(input@)[idx as int] == word@);
        }
        Ok(word)
    }
}

} // verus!
