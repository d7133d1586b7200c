//! The two primitive matchers every parser of this crate is built from: a
//! fixed tag, and a non-empty run of characters up to a stop character.
//! Both are carried out by `nom`.
use vstd::prelude::*;

verus! {

/// The characters at which a run ends.
#[derive(Clone, Copy, Debug)]
pub enum Stop {
    /// `]` or a line break: the end of a link label or of an image's
    /// alternative text.
    Bracket,
    /// A space, a line break or `)`: the end of a link destination.
    Destination,
    /// `)` or a line break: the end of a link title.
    Title,
    /// A line break, `*` or `~`: the end of a run of literal text.
    Delimiter,
    /// Anything but `#`: the end of a header marker.
    NotHash,
    /// A line break: the end of a line.
    LineBreak,
}

impl Stop {
    /// Whether a run ends before `c`.
    pub open spec fn holds(self, c: char) -> bool {
        match self {
            Stop::Bracket => c == ']' || c == '\n',
            Stop::Destination => c == ' ' || c == '\n' || c == ')',
            Stop::Title => c == ')' || c == '\n',
            Stop::Delimiter => c == '\n' || c == '*' || c == '~',
            Stop::NotHash => c != '#',
            Stop::LineBreak => c == '\n',
        }
    }

    /// Tells whether a run ends before `c`.
    pub fn test(self, c: char) -> (b: bool)
        ensures
            b == self.holds(c),
    {
        match self {
            Stop::Bracket => c == ']' || c == '\n',
            Stop::Destination => c == ' ' || c == '\n' || c == ')',
            Stop::Title => c == ')' || c == '\n',
            Stop::Delimiter => c == '\n' || c == '*' || c == '~',
            Stop::NotHash => c != '#',
            Stop::LineBreak => c == '\n',
        }
    }
}

/// The length of the longest prefix of `s` that holds no stop character.
pub open spec fn run_len(s: Seq<char>, stop: Stop) -> nat
    decreases s.len(),
{
    if s.len() == 0 || stop.holds(s[0]) {
        0
    } else {
        1 + run_len(s.skip(1), stop)
    }
}

/// Whether `s` holds no line break.
pub open spec fn single_line(s: Seq<char>) -> bool {
    forall|k: int| 0 <= k < s.len() ==> s[k] != '\n'
}

/// The first line of `s`: what stands before its first line break.
pub open spec fn first_line(s: Seq<char>) -> Seq<char> {
    s.take(run_len(s, Stop::LineBreak) as int)
}

/// `nom::Err`, the failure of a `nom` parser. It is handed from the matchers
/// below to their callers, which never look into it.
#[verifier::external_type_specification]
#[verifier::external_body]
#[verifier::reject_recursive_types(E)]
pub struct ExNomErr<E>(nom::Err<E>);

/// `nom::error::Error`, what a failure of a `nom` parser holds: the input
/// at which it failed, and a code. Nothing is claimed of either.
#[verifier::external_type_specification]
#[verifier::external_body]
#[verifier::reject_recursive_types(I)]
pub struct ExNomError<I>(nom::error::Error<I>);

/// `nom::bytes::complete::tag` on string slices. The contract claims that
/// the call succeeds exactly when the input begins with the characters of
/// `t`, and that it then returns `t`'s part of the input and, as the rest,
/// the input behind it. (`nom` compares the bytes of the two slices; of
/// two valid UTF-8 strings one begins with the bytes of the other exactly
/// when it begins with its characters.)
#[verifier::external_body]
pub(crate) fn tag<'a>(t: &str, i: &'a str) -> (r: Result<
    (&'a str, &'a str),
    nom::Err<nom::error::Error<&'a str>>,
>)
    ensures
        r is Ok <==> t@.is_prefix_of(i@),
        r is Ok ==> r->Ok_0.1@ == t@ && r->Ok_0.0@ == i@.skip(t@.len() as int),
{
    nom::bytes::complete::tag(t)(i)
}

/// `nom::bytes::complete::take_till1` on a string slice, with
/// [`Stop::test`] as the predicate. The contract claims that the call splits
/// the input in front of its first stop character, or takes all of it where
/// there is none, and that it fails exactly where that would leave an empty
/// run: on an empty input, and where the first character is a stop
/// character.
#[verifier::external_body]
pub(crate) fn take_till1<'a>(stop: Stop, i: &'a str) -> (r: Result<
    (&'a str, &'a str),
    nom::Err<nom::error::Error<&'a str>>,
>)
    ensures
        r is Ok <==> run_len(i@, stop) > 0,
        r is Ok ==> r->Ok_0.1@ == i@.take(run_len(i@, stop) as int) && r->Ok_0.0@ == i@.skip(
            run_len(i@, stop) as int,
        ),
{
    nom::bytes::complete::take_till1(|c: char| stop.test(c))(i)
}

/// A one-character tag is a prefix where the input begins with that
/// character.
pub proof fn lemma_prefix_one(s: Seq<char>, a: char)
    ensures
        seq![a].is_prefix_of(s) <==> s.len() >= 1 && s[0] == a,
{
    if s.len() >= 1 && s[0] == a {
        assert(s.subrange(0, 1) =~= seq![a]);
    }
    if seq![a].is_prefix_of(s) {
        assert(s.subrange(0, 1)[0] == a);
    }
}

/// A two-character tag is a prefix where the input begins with those two
/// characters.
pub proof fn lemma_prefix_two(s: Seq<char>, a: char, b: char)
    ensures
        seq![a, b].is_prefix_of(s) <==> s.len() >= 2 && s[0] == a && s[1] == b,
{
    if s.len() >= 2 && s[0] == a && s[1] == b {
        assert(s.subrange(0, 2) =~= seq![a, b]);
    }
    if seq![a, b].is_prefix_of(s) {
        assert(s.subrange(0, 2)[0] == a);
        assert(s.subrange(0, 2)[1] == b);
    }
}

/// A three-character tag is a prefix where the input begins with those
/// three characters.
pub proof fn lemma_prefix_three(s: Seq<char>, a: char, b: char, c: char)
    ensures
        seq![a, b, c].is_prefix_of(s) <==> s.len() >= 3 && s[0] == a && s[1] == b && s[2] == c,
{
    if s.len() >= 3 && s[0] == a && s[1] == b && s[2] == c {
        assert(s.subrange(0, 3) =~= seq![a, b, c]);
    }
    if seq![a, b, c].is_prefix_of(s) {
        assert(s.subrange(0, 3)[0] == a);
        assert(s.subrange(0, 3)[1] == b);
        assert(s.subrange(0, 3)[2] == c);
    }
}

/// The run ends inside the input, holds no stop character, and is followed
/// by a stop character or by the end of the input.
pub proof fn lemma_run_len(s: Seq<char>, stop: Stop)
    ensures
        run_len(s, stop) <= s.len(),
        forall|k: int| 0 <= k < run_len(s, stop) ==> !stop.holds(#[trigger] s[k]),
        run_len(s, stop) < s.len() ==> stop.holds(s[run_len(s, stop) as int]),
    decreases s.len(),
{
    if s.len() == 0 || stop.holds(s[0]) {
    } else {
        let tail = s.skip(1);
        lemma_run_len(tail, stop);
        assert forall|k: int| 0 <= k < run_len(s, stop) implies !stop.holds(#[trigger] s[k]) by {
            if k > 0 {
                assert(s[k] == tail[k - 1]);
            }
        }
        if run_len(s, stop) < s.len() {
            assert(s[run_len(s, stop) as int] == tail[run_len(tail, stop) as int]);
        }
    }
}

/// A prefix without stop characters that is followed by a stop character or
/// by the end of the input is the run.
pub proof fn lemma_run_len_is(s: Seq<char>, stop: Stop, n: nat)
    requires
        n <= s.len(),
        forall|k: int| 0 <= k < n ==> !stop.holds(#[trigger] s[k]),
        n == s.len() || stop.holds(s[n as int]),
    ensures
        run_len(s, stop) == n,
    decreases s.len(),
{
    if n == 0 {
    } else {
        let tail = s.skip(1);
        assert(!stop.holds(s[0]));
        assert forall|k: int| 0 <= k < n - 1 implies !stop.holds(#[trigger] tail[k]) by {
            assert(tail[k] == s[k + 1]);
        }
        if n < s.len() {
            assert(tail[n - 1] == s[n as int]);
        }
        lemma_run_len_is(tail, stop, (n - 1) as nat);
    }
}

} // verus!
