//! Byte-level line primitives: trailing-terminator trimming, splitting a
//! file's bytes into terminator-retaining lines, and joining them back.

use vstd::prelude::*;

verus! {

/// Line-feed byte (`\n`).
pub const LINE_FEED: u8 = 10;

/// Carriage-return byte (`\r`).
pub const CARRIAGE_RETURN: u8 = 13;

/// A byte that can form part of a line terminator.
pub open spec fn is_terminator_byte(b: u8) -> bool {
    b == CARRIAGE_RETURN || b == LINE_FEED
}

/// `s` with every trailing carriage-return and line-feed byte removed.
pub open spec fn trim_line(s: Seq<u8>) -> Seq<u8>
    decreases s.len(),
{
    if s.len() > 0 && is_terminator_byte(s.last()) {
        trim_line(s.drop_last())
    } else {
        s
    }
}

/// The trailing terminator bytes of `s`: everything after the trimmed part.
pub open spec fn terminator(s: Seq<u8>) -> Seq<u8> {
    s.subrange(trim_line(s).len() as int, s.len() as int)
}

/// The position of the first occurrence of `b` in `s`, if any.
pub open spec fn find_first(s: Seq<u8>, b: u8) -> Option<int>
    decreases s.len(),
{
    if s.len() == 0 {
        None
    } else if s[0] == b {
        Some(0)
    } else {
        match find_first(s.drop_first(), b) {
            None => None,
            Some(i) => Some(i + 1),
        }
    }
}

/// The length of the first line of `s`: everything up to and including the
/// first line-feed byte, or all of `s` if it has none.
pub open spec fn first_line_len(s: Seq<u8>) -> nat
    decreases s.len(),
{
    if s.len() == 0 {
        0
    } else if s[0] == LINE_FEED {
        1
    } else {
        1 + first_line_len(s.drop_first())
    }
}

/// The lines of a byte sequence: each line-feed byte ends a line and stays
/// with it; a final fragment without a line feed forms one last line.
pub open spec fn split_lines(s: Seq<u8>) -> Seq<Seq<u8>>
    decreases s.len(),
{
    if s.len() == 0 {
        Seq::empty()
    } else {
        let k = first_line_len(s);
        if 1 <= k <= s.len() {
            seq![s.subrange(0, k as int)] + split_lines(s.subrange(k as int, s.len() as int))
        } else {
            seq![s]
        }
    }
}

/// The concatenation of a sequence of lines.
pub open spec fn join(lines: Seq<Seq<u8>>) -> Seq<u8>
    decreases lines.len(),
{
    if lines.len() == 0 {
        Seq::empty()
    } else {
        lines.first() + join(lines.drop_first())
    }
}

/// The mathematical view of a vector of byte lines.
pub open spec fn lines_view(lines: Seq<Vec<u8>>) -> Seq<Seq<u8>> {
    Seq::new(lines.len(), |i: int| lines[i]@)
}

/// The trimmed part of a line is the prefix that stops where the trailing
/// terminator bytes begin, and it never ends in a terminator byte itself.
pub proof fn lemma_trim_line_prefix(s: Seq<u8>)
    ensures
        trim_line(s).len() <= s.len(),
        trim_line(s) == s.subrange(0, trim_line(s).len() as int),
        forall|i: int| trim_line(s).len() <= i < s.len() ==> is_terminator_byte(#[trigger] s[i]),
        trim_line(s).len() > 0 ==> !is_terminator_byte(trim_line(s).last()),
    decreases s.len(),
{
    if s.len() > 0 && is_terminator_byte(s.last()) {
        lemma_trim_line_prefix(s.drop_last());
        assert(s.drop_last() =~= s.subrange(0, s.len() - 1));
        assert(trim_line(s) =~= s.subrange(0, trim_line(s).len() as int));
        assert forall|i: int| trim_line(s).len() <= i < s.len() implies is_terminator_byte(
            #[trigger] s[i],
        ) by {
            if i < s.len() - 1 {
                assert(s[i] == s.drop_last()[i]);
            }
        }
    } else {
        assert(trim_line(s) =~= s.subrange(0, trim_line(s).len() as int));
    }
}

/// Appending only terminator bytes to a sequence does not change its trimmed
/// part.
pub proof fn lemma_trim_line_append_terminators(a: Seq<u8>, t: Seq<u8>)
    requires
        forall|i: int| 0 <= i < t.len() ==> is_terminator_byte(#[trigger] t[i]),
    ensures
        trim_line(a + t) == trim_line(a),
    decreases t.len(),
{
    if t.len() == 0 {
        assert(a + t =~= a);
    } else {
        assert((a + t).last() == t.last());
        assert((a + t).drop_last() =~= a + t.drop_last());
        lemma_trim_line_append_terminators(a, t.drop_last());
    }
}

/// Trimming is idempotent.
pub proof fn lemma_trim_line_idempotent(s: Seq<u8>)
    ensures
        trim_line(trim_line(s)) == trim_line(s),
{
    lemma_trim_line_prefix(s);
}

/// What `find_first` returns is the first occurrence: the byte is there, and
/// no earlier position holds it.
pub proof fn lemma_find_first_characterization(s: Seq<u8>, b: u8)
    ensures
        match find_first(s, b) {
            Some(i) => 0 <= i < s.len() && s[i] == b && forall|j: int|
                0 <= j < i ==> s[j] != b,
            None => forall|j: int| 0 <= j < s.len() ==> s[j] != b,
        },
    decreases s.len(),
{
    if s.len() == 0 {
    } else if s[0] == b {
    } else {
        lemma_find_first_characterization(s.drop_first(), b);
        assert(forall|j: int| 1 <= j < s.len() ==> s[j] == s.drop_first()[j - 1]);
    }
}

/// A position that holds `b` with no earlier occurrence is what `find_first`
/// returns.
pub proof fn lemma_find_first_at(s: Seq<u8>, b: u8, i: int)
    requires
        0 <= i < s.len(),
        s[i] == b,
        forall|j: int| 0 <= j < i ==> s[j] != b,
    ensures
        find_first(s, b) == Some(i),
    decreases s.len(),
{
    if i == 0 {
    } else {
        assert(forall|j: int| 0 <= j < i - 1 ==> s.drop_first()[j] == s[j + 1]);
        lemma_find_first_at(s.drop_first(), b, i - 1);
    }
}

/// A sequence without any occurrence of `b` makes `find_first` return `None`.
pub proof fn lemma_find_first_absent(s: Seq<u8>, b: u8)
    requires
        forall|j: int| 0 <= j < s.len() ==> s[j] != b,
    ensures
        find_first(s, b) is None,
    decreases s.len(),
{
    if s.len() > 0 {
        assert(forall|j: int| 0 <= j < s.len() - 1 ==> s.drop_first()[j] == s[j + 1]);
        lemma_find_first_absent(s.drop_first(), b);
    }
}

/// The first line is never empty, never longer than the whole sequence, holds
/// no line feed before its final byte, and ends at the first line feed if
/// there is one.
pub proof fn lemma_first_line_len_bounds(s: Seq<u8>)
    requires
        s.len() > 0,
    ensures
        1 <= first_line_len(s) <= s.len(),
        forall|j: int| 0 <= j < first_line_len(s) - 1 ==> s[j] != LINE_FEED,
        s[first_line_len(s) - 1] == LINE_FEED || first_line_len(s) == s.len(),
    decreases s.len(),
{
    if s[0] == LINE_FEED {
    } else if s.len() > 1 {
        lemma_first_line_len_bounds(s.drop_first());
        assert(forall|j: int| 1 <= j < s.len() ==> s[j] == s.drop_first()[j - 1]);
    } else {
        assert(s.drop_first().len() == 0);
        assert(first_line_len(s.drop_first()) == 0);
    }
}

/// A line feed at `i` with none before it puts the first line's end right
/// after `i`.
pub proof fn lemma_first_line_len_at(s: Seq<u8>, i: int)
    requires
        0 <= i < s.len(),
        s[i] == LINE_FEED,
        forall|j: int| 0 <= j < i ==> s[j] != LINE_FEED,
    ensures
        first_line_len(s) == i + 1,
    decreases s.len(),
{
    if i > 0 {
        assert(forall|j: int| 0 <= j < i - 1 ==> s.drop_first()[j] == s[j + 1]);
        lemma_first_line_len_at(s.drop_first(), i - 1);
    }
}

/// A sequence without any line feed is one single line.
pub proof fn lemma_first_line_len_absent(s: Seq<u8>)
    requires
        forall|j: int| 0 <= j < s.len() ==> s[j] != LINE_FEED,
    ensures
        first_line_len(s) == s.len(),
    decreases s.len(),
{
    if s.len() > 0 {
        assert(forall|j: int| 0 <= j < s.len() - 1 ==> s.drop_first()[j] == s[j + 1]);
        lemma_first_line_len_absent(s.drop_first());
    }
}

/// Joining distributes over appending one line at the end.
pub proof fn lemma_join_push(lines: Seq<Seq<u8>>, x: Seq<u8>)
    ensures
        join(lines.push(x)) == join(lines) + x,
    decreases lines.len(),
{
    if lines.len() == 0 {
        assert(lines.push(x).drop_first() =~= Seq::<Seq<u8>>::empty());
        assert(lines.push(x).first() == x);
        assert(join(lines.push(x)) == x + join(Seq::<Seq<u8>>::empty()));
        assert(x + Seq::<u8>::empty() =~= x);
        assert(join(lines) + x =~= x);
    } else {
        assert(lines.push(x).first() == lines.first());
        assert(lines.push(x).drop_first() =~= lines.drop_first().push(x));
        lemma_join_push(lines.drop_first(), x);
        assert(join(lines.push(x)) == lines.first() + (join(lines.drop_first()) + x));
        assert(lines.first() + (join(lines.drop_first()) + x) =~= (lines.first() + join(
            lines.drop_first(),
        )) + x);
    }
}

/// Joining the lines of a byte sequence reproduces that sequence exactly,
/// including its line-ending convention and a possibly absent final line feed.
pub proof fn lemma_join_split_lines(s: Seq<u8>)
    ensures
        join(split_lines(s)) == s,
    decreases s.len(),
{
    if s.len() == 0 {
    } else {
        lemma_first_line_len_bounds(s);
        let k = first_line_len(s) as int;
        let head = s.subrange(0, k);
        let rest = s.subrange(k, s.len() as int);
        lemma_join_split_lines(rest);
        assert((seq![head] + split_lines(rest)).first() == head);
        assert((seq![head] + split_lines(rest)).drop_first() =~= split_lines(rest));
        assert(head + rest =~= s);
    }
}

/// The number of bytes of `line` that remain once its trailing carriage
/// returns and line feeds are dropped.
pub fn trimmed_len(line: &[u8]) -> (r: usize)
    ensures
        r <= line@.len(),
        r == trim_line(line@).len(),
        trim_line(line@) == line@.subrange(0, r as int),
{
    proof {
        lemma_trim_line_prefix(line@);
        assert(line@.subrange(0, line@.len() as int) =~= line@);
    }
    let mut i: usize = line.len();
    while i > 0 && (line[i - 1] == CARRIAGE_RETURN || line[i - 1] == LINE_FEED)
        invariant
            i <= line@.len(),
            trim_line(line@) == trim_line(line@.subrange(0, i as int)),
        decreases i,
    {
        proof {
            let part = line@.subrange(0, i as int);
            assert(part.last() == line@[i - 1]);
            assert(part.drop_last() =~= line@.subrange(0, i - 1));
        }
        i = i - 1;
    }
    proof {
        let part = line@.subrange(0, i as int);
        if i > 0 {
            assert(part.last() == line@[i - 1]);
        }
        assert(trim_line(part) == part);
        lemma_trim_line_prefix(line@);
    }
    i
}

/// The index of the first occurrence of `b` in `s`, if any.
pub fn find_byte(s: &[u8], b: u8) -> (r: Option<usize>)
    ensures
        match r {
            Some(i) => find_first(s@, b) == Some(i as int),
            None => find_first(s@, b) is None,
        },
{
    let mut i: usize = 0;
    while i < s.len()
        invariant
            i <= s@.len(),
            forall|j: int| 0 <= j < i ==> s@[j] != b,
        decreases s@.len() - i,
    {
        if s[i] == b {
            proof {
                lemma_find_first_at(s@, b, i as int);
            }
            return Some(i);
        }
        i = i + 1;
    }
    proof {
        lemma_find_first_absent(s@, b);
    }
    None
}

/// Whether two byte slices hold the same bytes.
pub fn bytes_eq(a: &[u8], b: &[u8]) -> (r: bool)
    ensures
        r == (a@ == b@),
{
    if a.len() != b.len() {
        return false;
    }
    let mut i: usize = 0;
    while i < a.len()
        invariant
            a@.len() == b@.len(),
            i <= a@.len(),
            forall|j: int| 0 <= j < i ==> a@[j] == b@[j],
        decreases a@.len() - i,
    {
        if a[i] != b[i] {
            return false;
        }
        i = i + 1;
    }
    proof {
        assert(a@ =~= b@);
    }
    true
}

/// A fresh vector holding the bytes of `s` from `from` (inclusive) to `to`
/// (exclusive).
pub fn copy_range(s: &[u8], from: usize, to: usize) -> (r: Vec<u8>)
    requires
        from <= to <= s@.len(),
    ensures
        r@ == s@.subrange(from as int, to as int),
{
    let mut r: Vec<u8> = Vec::new();
    let mut i: usize = from;
    while i < to
        invariant
            from <= i <= to <= s@.len(),
            r@ == s@.subrange(from as int, i as int),
        decreases to - i,
    {
        r.push(s[i]);
        proof {
            assert(r@ =~= s@.subrange(from as int, i + 1));
        }
        i = i + 1;
    }
    r
}

/// The lines of `content`, split after each line-feed byte, each line keeping
/// its terminator bytes.
pub fn split_into_lines(content: &[u8]) -> (lines: Vec<Vec<u8>>)
    ensures
        lines_view(lines@) == split_lines(content@),
{
    let mut lines: Vec<Vec<u8>> = Vec::new();
    let mut start: usize = 0;
    let mut i: usize = 0;
    proof {
        assert(content@.subrange(0, content@.len() as int) =~= content@);
        assert(lines_view(lines@) =~= Seq::<Seq<u8>>::empty());
        assert(lines_view(lines@) + split_lines(content@) =~= split_lines(content@));
    }
    while i < content.len()
        invariant
            start <= i <= content@.len(),
            forall|j: int| start <= j < i ==> content@[j] != LINE_FEED,
            split_lines(content@) =~= lines_view(lines@) + split_lines(
                content@.subrange(start as int, content@.len() as int),
            ),
        decreases content@.len() - i,
    {
        if content[i] == LINE_FEED {
            let line = copy_range(content, start, i + 1);
            proof {
                let rest = content@.subrange(start as int, content@.len() as int);
                assert(forall|j: int| 0 <= j < rest.len() ==> rest[j] == content@[start + j]);
                lemma_first_line_len_at(rest, i - start);
                assert(split_lines(rest) == seq![rest.subrange(0, i + 1 - start)] + split_lines(
                    rest.subrange(i + 1 - start, rest.len() as int),
                ));
                assert(rest.subrange(0, i + 1 - start) =~= line@);
                assert(rest.subrange(i + 1 - start, rest.len() as int) =~= content@.subrange(
                    i + 1,
                    content@.len() as int,
                ));
                assert(lines_view(lines@.push(line)) =~= lines_view(lines@) + seq![line@]);
                assert(lines_view(lines@) + (seq![line@] + split_lines(
                    content@.subrange(i + 1, content@.len() as int),
                )) =~= lines_view(lines@.push(line)) + split_lines(
                    content@.subrange(i + 1, content@.len() as int),
                ));
            }
            lines.push(line);
            start = i + 1;
        }
        i = i + 1;
    }
    if start < content.len() {
        let line = copy_range(content, start, content.len());
        proof {
            let rest = content@.subrange(start as int, content@.len() as int);
            assert(forall|j: int| 0 <= j < rest.len() ==> rest[j] == content@[start + j]);
            lemma_first_line_len_absent(rest);
            assert(split_lines(rest) == seq![rest.subrange(0, rest.len() as int)] + split_lines(
                rest.subrange(rest.len() as int, rest.len() as int),
            ));
            assert(rest.subrange(rest.len() as int, rest.len() as int) =~= Seq::<u8>::empty());
            assert(rest.subrange(0, rest.len() as int) =~= line@);
            assert(seq![line@] + split_lines(Seq::<u8>::empty()) =~= seq![line@]);
            assert(lines_view(lines@.push(line)) =~= lines_view(lines@) + seq![line@]);
        }
        lines.push(line);
    } else {
        proof {
            assert(content@.subrange(start as int, content@.len() as int) =~= Seq::<u8>::empty());
        }
    }
    proof {
        assert(lines_view(lines@) =~= split_lines(content@));
    }
    lines
}

/// The concatenation of the given lines into one contiguous byte vector.
pub fn join_lines(lines: &Vec<Vec<u8>>) -> (r: Vec<u8>)
    ensures
        r@ == join(lines_view(lines@)),
{
    let mut r: Vec<u8> = Vec::new();
    let mut i: usize = 0;
    while i < lines.len()
        invariant
            i <= lines@.len(),
            r@ == join(lines_view(lines@.subrange(0, i as int))),
        decreases lines@.len() - i,
    {
        let line = &lines[i];
        let mut k: usize = 0;
        while k < line.len()
            invariant
                i < lines@.len(),
                k <= line@.len(),
                line@ == lines@[i as int]@,
                r@ == join(lines_view(lines@.subrange(0, i as int))) + line@.subrange(0, k as int),
            decreases line@.len() - k,
        {
            r.push(line[k]);
            proof {
                assert(r@ =~= join(lines_view(lines@.subrange(0, i as int))) + line@.subrange(
                    0,
                    k + 1,
                ));
            }
            k = k + 1;
        }
        proof {
            lemma_join_push(lines_view(lines@.subrange(0, i as int)), line@);
            assert(lines_view(lines@.subrange(0, i as int)).push(line@) =~= lines_view(
                lines@.subrange(0, i + 1),
            ));
            assert(line@.subrange(0, line@.len() as int) =~= line@);
        }
        i = i + 1;
    }
    proof {
        assert(lines@.subrange(0, lines@.len() as int) =~= lines@);
    }
    r
}

} // verus!
