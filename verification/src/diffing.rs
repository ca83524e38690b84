//! The diff engine: a character-level alignment of two texts, the marker
//! string that highlights divergent characters, and width-aware interleaving
//! of a value with its marker for terminal display.

use vstd::prelude::*;
use vstd::string::*;

use crate::textutil::push_char;
use crate::textutil::push_repeated;
use crate::textutil::repeat_char;
use crate::textutil::string_of;

verus! {

/// One aligned unit of a character-level alignment of two texts.
pub enum DiffElem {
    /// A character present only in the left text.
    Left(char),
    /// A character present in both texts at this aligned position.
    Both(char),
    /// A character present only in the right text.
    Right(char),
}

/// The characters that an alignment assigns to the left text: those classified
/// present-only-in-left or common, in order.
pub open spec fn left_chars(d: Seq<DiffElem>) -> Seq<char>
    decreases d.len(),
{
    if d.len() == 0 {
        Seq::empty()
    } else {
        match d[0] {
            DiffElem::Left(c) => seq![c] + left_chars(d.skip(1)),
            DiffElem::Both(c) => seq![c] + left_chars(d.skip(1)),
            DiffElem::Right(_) => left_chars(d.skip(1)),
        }
    }
}

/// The characters that an alignment assigns to the right text: those
/// classified present-only-in-right or common, in order.
pub open spec fn right_chars(d: Seq<DiffElem>) -> Seq<char>
    decreases d.len(),
{
    if d.len() == 0 {
        Seq::empty()
    } else {
        match d[0] {
            DiffElem::Left(_) => right_chars(d.skip(1)),
            DiffElem::Both(c) => seq![c] + right_chars(d.skip(1)),
            DiffElem::Right(c) => seq![c] + right_chars(d.skip(1)),
        }
    }
}

/// The characters at the common-classified positions of an alignment, in order.
pub open spec fn common_chars(d: Seq<DiffElem>) -> Seq<char>
    decreases d.len(),
{
    if d.len() == 0 {
        Seq::empty()
    } else {
        match d[0] {
            DiffElem::Both(c) => seq![c] + common_chars(d.skip(1)),
            _ => common_chars(d.skip(1)),
        }
    }
}

/// The alignment that the character diff computes for a pair of texts; it is a
/// function of the two texts alone.
pub uninterp spec fn diff_chars_of(left: Seq<char>, right: Seq<char>) -> Seq<DiffElem>;

/// Relies on `diff::chars`, a longest-common-subsequence alignment of the two
/// texts' characters: a `Both` element carries two equal characters, the
/// `Left` and `Both` elements spell the left text in order, the `Right` and
/// `Both` elements spell the right text in order, and the alignment is a
/// function of the two texts alone.
#[verifier::external_body]
fn diff_chars(left: &str, right: &str) -> (r: Vec<DiffElem>)
    ensures
        r@ == diff_chars_of(left@, right@),
        left_chars(r@) == left@,
        right_chars(r@) == right@,
{
    diff::chars(left, right)
        .into_iter()
        .map(
            |d| match d {
                diff::Result::Left(c) => DiffElem::Left(c),
                diff::Result::Both(c, _) => DiffElem::Both(c),
                diff::Result::Right(c) => DiffElem::Right(c),
            },
        )
        .collect()
}

/// What one alignment unit contributes to the left text's marker string: the
/// marker symbol for a character only in the left text, a blank for a common
/// character, nothing for a character only in the right text.
pub open spec fn marking_unit(symbol: char, e: DiffElem) -> Seq<char> {
    match e {
        DiffElem::Left(_) => seq![symbol],
        DiffElem::Both(_) => seq![' '],
        DiffElem::Right(_) => Seq::empty(),
    }
}

/// The marker string for the left text of an alignment, in document order.
pub open spec fn marking_of(symbol: char, d: Seq<DiffElem>) -> Seq<char>
    decreases d.len(),
{
    if d.len() == 0 {
        Seq::empty()
    } else {
        marking_unit(symbol, d[0]) + marking_of(symbol, d.skip(1))
    }
}

proof fn lemma_marking_snoc(symbol: char, d: Seq<DiffElem>, e: DiffElem)
    ensures
        marking_of(symbol, d.push(e)) == marking_of(symbol, d) + marking_unit(symbol, e),
    decreases d.len(),
{
    if d.len() == 0 {
        assert(d.push(e)[0] == e);
        assert(d.push(e).skip(1) =~= Seq::<DiffElem>::empty());
        assert(marking_of(symbol, d.push(e)) == marking_unit(symbol, e) + marking_of(
            symbol,
            Seq::<DiffElem>::empty(),
        ));
        assert(marking_of(symbol, Seq::<DiffElem>::empty()) == Seq::<char>::empty());
        assert(marking_unit(symbol, e) + Seq::<char>::empty() =~= marking_unit(symbol, e));
        assert(marking_of(symbol, d) + marking_unit(symbol, e) =~= marking_unit(symbol, e));
    } else {
        assert(d.push(e).skip(1) =~= d.skip(1).push(e));
        lemma_marking_snoc(symbol, d.skip(1), e);
        assert(marking_of(symbol, d.push(e)) =~= marking_of(symbol, d) + marking_unit(symbol, e));
    }
}

/// The marker string is exactly as long as the text the alignment assigns to
/// the left side.
pub proof fn lemma_marking_len(symbol: char, d: Seq<DiffElem>)
    ensures
        marking_of(symbol, d).len() == left_chars(d).len(),
    decreases d.len(),
{
    if d.len() > 0 {
        lemma_marking_len(symbol, d.skip(1));
    }
}

/// `a` occurs inside `b` as a subsequence: same characters, same relative
/// order, possibly with other characters of `b` in between.
pub open spec fn is_subseq_of(a: Seq<char>, b: Seq<char>) -> bool
    decreases a.len() + b.len(),
{
    if a.len() == 0 {
        true
    } else if b.len() == 0 {
        false
    } else {
        (a[0] == b[0] && is_subseq_of(a.skip(1), b.skip(1))) || is_subseq_of(a, b.skip(1))
    }
}

proof fn lemma_subseq_cons(a: Seq<char>, b: Seq<char>, c: char)
    requires
        is_subseq_of(a, b),
    ensures
        is_subseq_of(a, seq![c] + b),
{
    if a.len() > 0 {
        assert((seq![c] + b).skip(1) =~= b);
    }
}

/// Diff alignment correctness: the common-classified characters of an
/// alignment form a subsequence of the characters it assigns to the left text
/// and a subsequence of those it assigns to the right text — identical in
/// content and relative order on both sides.
pub proof fn lemma_alignment_common(d: Seq<DiffElem>)
    ensures
        is_subseq_of(common_chars(d), left_chars(d)),
        is_subseq_of(common_chars(d), right_chars(d)),
    decreases d.len(),
{
    if d.len() > 0 {
        lemma_alignment_common(d.skip(1));
        match d[0] {
            DiffElem::Left(c) => {
                lemma_subseq_cons(common_chars(d.skip(1)), left_chars(d.skip(1)), c);
            },
            DiffElem::Right(c) => {
                lemma_subseq_cons(common_chars(d.skip(1)), right_chars(d.skip(1)), c);
            },
            DiffElem::Both(c) => {
                assert((seq![c] + common_chars(d.skip(1))).skip(1) =~= common_chars(d.skip(1)));
                assert((seq![c] + left_chars(d.skip(1))).skip(1) =~= left_chars(d.skip(1)));
                assert((seq![c] + right_chars(d.skip(1))).skip(1) =~= right_chars(d.skip(1)));
            },
        }
    }
}

/// The left-anchored marker string for a pair of texts: `symbol` at the
/// positions classified present-only-in-`left`, a blank at common positions.
/// Its character length equals the length of `left`. The alignment it marks
/// assigns exactly `left` to the left side and exactly `right` to the right
/// side, so its common characters are a subsequence of both inputs.
pub fn render_diff(symbol: char, left: &str, right: &str) -> (r: String)
    ensures
        r@ == marking_of(symbol, diff_chars_of(left@, right@)),
        r@.len() == left@.len(),
        left_chars(diff_chars_of(left@, right@)) == left@,
        right_chars(diff_chars_of(left@, right@)) == right@,
{
    let d = diff_chars(left, right);
    let mut out: Vec<char> = Vec::new();
    let mut i: usize = 0;
    while i < d.len()
        invariant
            i <= d@.len(),
            out@ == marking_of(symbol, d@.take(i as int)),
        decreases d@.len() - i,
    {
        match d[i] {
            DiffElem::Left(_) => out.push(symbol),
            DiffElem::Both(_) => out.push(' '),
            DiffElem::Right(_) => (),
        }
        proof {
            lemma_marking_snoc(symbol, d@.take(i as int), d@[i as int]);
            assert(d@.take(i + 1 as int) =~= d@.take(i as int).push(d@[i as int]));
        }
        i = i + 1;
    }
    proof {
        assert(d@.take(d@.len() as int) =~= d@);
        lemma_marking_len(symbol, d@);
    }
    string_of(&out)
}

/// The characters of a text split into chunks of `n` characters, in order;
/// the last chunk may be shorter. An empty text has no chunks.
pub open spec fn chunks_of(s: Seq<char>, n: nat) -> Seq<Seq<char>>
    recommends
        n >= 1,
    decreases s.len(),
    when n >= 1
{
    if s.len() == 0 {
        Seq::empty()
    } else if s.len() <= n {
        seq![s]
    } else {
        seq![s.take(n as int)] + chunks_of(s.skip(n as int), n)
    }
}

/// Splits a text into consecutive chunks of `sub_size` characters; the last
/// chunk may be shorter.
pub fn sub_strings(source: &str, sub_size: usize) -> (r: Vec<String>)
    requires
        sub_size >= 1,
    ensures
        r@.map_values(|t: String| t@) == chunks_of(source@, sub_size as nat),
{
    let n = source.unicode_len();
    let mut r: Vec<String> = Vec::new();
    let mut i: usize = 0;
    proof {
        assert(source@.skip(0) =~= source@);
        assert(r@.map_values(|t: String| t@) =~= Seq::<Seq<char>>::empty());
        assert(Seq::<Seq<char>>::empty() + chunks_of(source@, sub_size as nat) =~= chunks_of(
            source@,
            sub_size as nat,
        ));
    }
    while i < n
        invariant
            i <= n,
            n == source@.len(),
            sub_size >= 1,
            chunks_of(source@, sub_size as nat) == r@.map_values(|t: String| t@) + chunks_of(
                source@.skip(i as int),
                sub_size as nat,
            ),
        decreases n - i,
    {
        let end = if n - i <= sub_size {
            n
        } else {
            i + sub_size
        };
        let piece = source.substring_char(i, end).to_owned();
        proof {
            let rest = source@.skip(i as int);
            if rest.len() <= sub_size as nat {
                assert(rest =~= source@.subrange(i as int, end as int));
                assert(source@.skip(end as int) =~= Seq::<char>::empty());
                assert(chunks_of(rest, sub_size as nat) =~= seq![source@.subrange(
                    i as int,
                    end as int,
                )] + chunks_of(source@.skip(end as int), sub_size as nat));
            } else {
                assert(rest.take(sub_size as int) =~= source@.subrange(i as int, end as int));
                assert(rest.skip(sub_size as int) =~= source@.skip(end as int));
            }
            assert((r@.push(piece)).map_values(|t: String| t@) =~= r@.map_values(|t: String| t@)
                + seq![source@.subrange(i as int, end as int)]);
        }
        r.push(piece);
        i = end;
    }
    proof {
        assert(source@.skip(n as int) =~= Seq::<char>::empty());
        assert(r@.map_values(|t: String| t@) + chunks_of(Seq::<char>::empty(), sub_size as nat)
            =~= r@.map_values(|t: String| t@));
    }
    r
}

/// Two chunk lists interleaved: first of `a`, first of `b`, second of `a`,
/// second of `b`, …; when one side runs out, the rest of the other follows.
pub open spec fn interleave_seqs(a: Seq<Seq<char>>, b: Seq<Seq<char>>) -> Seq<Seq<char>>
    decreases a.len() + b.len(),
{
    if a.len() == 0 {
        b
    } else if b.len() == 0 {
        a
    } else {
        seq![a[0], b[0]] + interleave_seqs(a.skip(1), b.skip(1))
    }
}

/// Interleaves two chunk lists, alternating and then appending what is left of
/// the longer one.
pub fn interleave_vec(a: Vec<String>, b: Vec<String>) -> (r: Vec<String>)
    ensures
        r@.map_values(|t: String| t@) == interleave_seqs(
            a@.map_values(|t: String| t@),
            b@.map_values(|t: String| t@),
        ),
{
    let ghost av = a@.map_values(|t: String| t@);
    let ghost bv = b@.map_values(|t: String| t@);
    let mut r: Vec<String> = Vec::new();
    let mut i: usize = 0;
    proof {
        assert(av.skip(0) =~= av);
        assert(bv.skip(0) =~= bv);
        assert(r@.map_values(|t: String| t@) =~= Seq::<Seq<char>>::empty());
        assert(Seq::<Seq<char>>::empty() + interleave_seqs(av, bv) =~= interleave_seqs(av, bv));
    }
    while i < a.len() || i < b.len()
        invariant
            av == a@.map_values(|t: String| t@),
            bv == b@.map_values(|t: String| t@),
            i <= av.len() || i <= bv.len(),
            interleave_seqs(av, bv) == r@.map_values(|t: String| t@) + interleave_seqs(
                av.skip(if i <= av.len() {
                    i as int
                } else {
                    av.len() as int
                }),
                bv.skip(if i <= bv.len() {
                    i as int
                } else {
                    bv.len() as int
                }),
            ),
        decreases (if i <= av.len() {
            av.len() - i
        } else {
            0
        }) + (if i <= bv.len() {
            bv.len() - i
        } else {
            0
        }),
    {
        let ghost ra = av.skip(
            if i <= av.len() {
                i as int
            } else {
                av.len() as int
            },
        );
        let ghost rb = bv.skip(
            if i <= bv.len() {
                i as int
            } else {
                bv.len() as int
            },
        );
        if i < a.len() {
            let piece = a[i].clone();
            proof {
                assert(ra[0] == av[i as int]);
                assert((r@.push(piece)).map_values(|t: String| t@) =~= r@.map_values(
                    |t: String| t@,
                ).push(av[i as int]));
            }
            r.push(piece);
        }
        if i < b.len() {
            let piece = b[i].clone();
            proof {
                assert(rb[0] == bv[i as int]);
                assert((r@.push(piece)).map_values(|t: String| t@) =~= r@.map_values(
                    |t: String| t@,
                ).push(bv[i as int]));
            }
            r.push(piece);
        }
        proof {
            if ra.len() > 0 && rb.len() > 0 {
                assert(interleave_seqs(ra, rb) =~= seq![ra[0], rb[0]] + interleave_seqs(
                    ra.skip(1),
                    rb.skip(1),
                ));
                assert(ra.skip(1) =~= av.skip(
                    if i + 1 <= av.len() {
                        i + 1 as int
                    } else {
                        av.len() as int
                    },
                ));
                assert(rb.skip(1) =~= bv.skip(
                    if i + 1 <= bv.len() {
                        i + 1 as int
                    } else {
                        bv.len() as int
                    },
                ));
            } else if ra.len() > 0 {
                assert(interleave_seqs(ra, rb) =~= ra);
                assert(ra =~= seq![ra[0]] + ra.skip(1));
                assert(ra.skip(1) =~= av.skip(
                    if i + 1 <= av.len() {
                        i + 1 as int
                    } else {
                        av.len() as int
                    },
                ));
                assert(interleave_seqs(
                    ra.skip(1),
                    bv.skip(
                        if i + 1 <= bv.len() {
                            i + 1 as int
                        } else {
                            bv.len() as int
                        },
                    ),
                ) =~= ra.skip(1));
            } else if rb.len() > 0 {
                assert(interleave_seqs(ra, rb) =~= rb);
                assert(rb =~= seq![rb[0]] + rb.skip(1));
                assert(rb.skip(1) =~= bv.skip(
                    if i + 1 <= bv.len() {
                        i + 1 as int
                    } else {
                        bv.len() as int
                    },
                ));
                assert(interleave_seqs(
                    av.skip(
                        if i + 1 <= av.len() {
                            i + 1 as int
                        } else {
                            av.len() as int
                        },
                    ),
                    rb.skip(1),
                ) =~= rb.skip(1));
            }
        }
        i = i + 1;
    }
    proof {
        let fa = av.skip(
            if i <= av.len() {
                i as int
            } else {
                av.len() as int
            },
        );
        let fb = bv.skip(
            if i <= bv.len() {
                i as int
            } else {
                bv.len() as int
            },
        );
        assert(fa =~= Seq::<Seq<char>>::empty());
        assert(fb =~= Seq::<Seq<char>>::empty());
        assert(r@.map_values(|t: String| t@) + interleave_seqs(fa, fb) =~= r@.map_values(
            |t: String| t@,
        ));
    }
    r
}

/// The pieces joined with the separator between consecutive pieces.
pub open spec fn join_with(parts: Seq<Seq<char>>, sep: Seq<char>) -> Seq<char>
    decreases parts.len(),
{
    if parts.len() == 0 {
        Seq::empty()
    } else if parts.len() == 1 {
        parts[0]
    } else {
        parts[0] + sep + join_with(parts.skip(1), sep)
    }
}

proof fn lemma_join_snoc(parts: Seq<Seq<char>>, x: Seq<char>, sep: Seq<char>)
    requires
        parts.len() >= 1,
    ensures
        join_with(parts.push(x), sep) == join_with(parts, sep) + sep + x,
    decreases parts.len(),
{
    if parts.len() == 1 {
        assert(parts.push(x)[0] == parts[0]);
        assert(parts.push(x).skip(1) =~= seq![x]);
        assert(seq![x][0] == x);
        assert(join_with(seq![x], sep) == x);
        assert(join_with(parts.push(x), sep) == parts.push(x)[0] + sep + join_with(
            parts.push(x).skip(1),
            sep,
        ));
        assert(join_with(parts, sep) + sep + x =~= parts[0] + sep + x);
    } else {
        assert(parts.push(x).skip(1) =~= parts.skip(1).push(x));
        lemma_join_snoc(parts.skip(1), x, sep);
        assert(join_with(parts.push(x), sep) =~= join_with(parts, sep) + sep + x);
    }
}

/// The separator between display lines: a newline followed by the indentation
/// in blank characters.
pub open spec fn line_sep(indent: nat) -> Seq<char> {
    seq!['\n'] + repeat_char(' ', indent)
}

fn join_lines(parts: &Vec<String>, indent: usize) -> (r: String)
    ensures
        r@ == join_with(parts@.map_values(|t: String| t@), line_sep(indent as nat)),
{
    let ghost pv = parts@.map_values(|t: String| t@);
    if parts.len() == 0 {
        let r = String::new();
        return r;
    }
    let mut r = parts[0].clone();
    let mut i: usize = 1;
    while i < parts.len()
        invariant
            1 <= i <= pv.len(),
            pv == parts@.map_values(|t: String| t@),
            r@ == join_with(pv.take(i as int), line_sep(indent as nat)),
        decreases pv.len() - i,
    {
        push_char(&mut r, '\n');
        push_repeated(&mut r, ' ', indent);
        r.append(parts[i].as_str());
        proof {
            lemma_join_snoc(pv.take(i as int), pv[i as int], line_sep(indent as nat));
            assert(pv.take(i + 1 as int) =~= pv.take(i as int).push(pv[i as int]));
            assert(r@ =~= join_with(pv.take(i as int), line_sep(indent as nat)) + line_sep(
                indent as nat,
            ) + pv[i as int]);
        }
        i = i + 1;
    }
    proof {
        assert(pv.take(pv.len() as int) =~= pv);
    }
    r
}

/// The column budget for wrapped display: the width minus the indentation,
/// clamped to at least one column.
pub open spec fn column_budget(indent: nat, width: nat) -> nat {
    if width > indent {
        (width - indent) as nat
    } else {
        1
    }
}

/// The display interleaving of a value with a second, parallel text: both are
/// split into chunks of the column budget and the chunks alternate — first
/// chunk, second chunk, first chunk, … — joined by a newline and the
/// indentation in blanks. An empty pair yields an empty display.
pub open spec fn with_diff_spec(first: Seq<char>, second: Seq<char>, indent: nat, width: nat) -> Seq<
    char,
> {
    join_with(
        interleave_seqs(
            chunks_of(first, column_budget(indent, width)),
            chunks_of(second, column_budget(indent, width)),
        ),
        line_sep(indent),
    )
}

/// Interleaves a value with its parallel marker text in chunks bounded by the
/// column budget of the given terminal width and indentation.
pub fn with_diff(first: &str, second: &str, indent: usize, width: usize) -> (r: String)
    ensures
        r@ == with_diff_spec(first@, second@, indent as nat, width as nat),
{
    let budget = if width > indent {
        width - indent
    } else {
        1
    };
    let a = sub_strings(first, budget);
    let b = sub_strings(second, budget);
    let parts = interleave_vec(a, b);
    join_lines(&parts, indent)
}

} // verus!
