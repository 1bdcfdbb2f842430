//! Reading a canvas from text: line splitting and character states.
use vstd::prelude::*;

verus! {

/// A line without the one carriage return that may end it.
pub open spec fn strip_cr(line: Seq<char>) -> Seq<char> {
    if line.len() > 0 && line.last() == '\r' {
        line.drop_last()
    } else {
        line
    }
}

/// The lines of `cur + s`, where `cur` is an unfinished line that holds no
/// line feed. A line ends at a line feed, which is dropped together with a
/// carriage return just before it; a last line without a line feed counts
/// only when it is not empty.
pub open spec fn lines_after(cur: Seq<char>, s: Seq<char>) -> Seq<Seq<char>>
    decreases s.len(),
{
    if s.len() == 0 {
        if cur.len() == 0 {
            Seq::empty()
        } else {
            seq![cur]
        }
    } else if s[0] == '\n' {
        seq![strip_cr(cur)] + lines_after(Seq::empty(), s.drop_first())
    } else {
        lines_after(cur.push(s[0]), s.drop_first())
    }
}

/// The lines of a text, split as `str::lines` splits them.
pub open spec fn lines_of(s: Seq<char>) -> Seq<Seq<char>> {
    lines_after(Seq::empty(), s)
}

/// The state of a pixel written as `c`: off for `inactive`, on for `active`
/// and for every other character.
pub open spec fn char_state(c: char, active: char, inactive: char) -> bool {
    if c == active {
        true
    } else if c == inactive {
        false
    } else {
        true
    }
}

/// The pixel states of one line of text.
pub open spec fn line_states(line: Seq<char>, active: char, inactive: char) -> Seq<bool> {
    Seq::new(line.len(), |j: int| char_state(line[j], active, inactive))
}

/// The logical matrix that a text describes, one row per line.
pub open spec fn text_matrix(s: Seq<char>, active: char, inactive: char) -> Seq<Seq<bool>> {
    let lines = lines_of(s);
    Seq::new(lines.len(), |k: int| line_states(lines[k], active, inactive))
}

/// Pushing onto a vector pushes the deep view of the new element onto its
/// deep view.
pub(crate) proof fn lemma_deep_view_push<T: DeepView>(v: Vec<T>, w: Vec<T>, x: T)
    requires
        w@ == v@.push(x),
    ensures
        w.deep_view() == v.deep_view().push(x.deep_view()),
{
    assert(w.deep_view() =~= v.deep_view().push(x.deep_view()));
}

/// The lines of `s`, split as [`lines_of`] says.
pub fn split_lines(s: &str) -> (r: Vec<Vec<char>>)
    ensures
        r.deep_view() == lines_of(s@),
{
    let mut out: Vec<Vec<char>> = Vec::new();
    let mut cur: Vec<char> = Vec::new();
    assert(s@.skip(0) =~= s@);
    assert(out.deep_view() + lines_of(s@) =~= lines_of(s@));
    for c in iter: s.chars()
        invariant
            iter.seq() == s@,
            iter.index() <= s@.len(),
            out.deep_view() + lines_after(cur@, s@.skip(iter.index() as int)) == lines_of(s@),
    {
        let ghost k = iter.index() as int;
        let ghost before = out.deep_view();
        assert(s@.skip(k).drop_first() =~= s@.skip(k + 1));
        assert(s@.skip(k)[0] == c);
        if c == '\n' {
            let ghost line = strip_cr(cur@);
            if cur.len() > 0 && cur[cur.len() - 1] == '\r' {
                cur.pop();
            }
            assert(cur@ =~= line);
            let ghost old_out = out;
            let ghost pushed = cur;
            out.push(cur);
            proof {
                lemma_deep_view_push(old_out, out, pushed);
                assert(pushed.deep_view() =~= line);
            }
            assert(out.deep_view() =~= before.push(line));
            assert(before + seq![line] + lines_after(Seq::empty(), s@.skip(k + 1)) =~= before + (
            seq![line] + lines_after(Seq::empty(), s@.skip(k + 1))));
            cur = Vec::new();
            assert(cur@ =~= Seq::<char>::empty());
        } else {
            cur.push(c);
        }
    }
    let ghost before = out.deep_view();
    assert(s@.skip(s@.len() as int) =~= Seq::<char>::empty());
    if cur.len() > 0 {
        let ghost old_out = out;
        let ghost pushed = cur;
        out.push(cur);
        proof {
            lemma_deep_view_push(old_out, out, pushed);
            assert(pushed.deep_view() =~= pushed@);
        }
        assert(out.deep_view() =~= before.push(cur@));
    } else {
        assert(out.deep_view() =~= before);
    }
    assert(out.deep_view() =~= lines_of(s@));
    out
}

/// The states of the characters of one line.
pub fn line_to_states(line: &Vec<char>, active: char, inactive: char) -> (r: Vec<bool>)
    ensures
        r@ == line_states(line@, active, inactive),
{
    let mut states: Vec<bool> = Vec::with_capacity(line.len());
    let mut j: usize = 0;
    while j < line.len()
        invariant
            j <= line@.len(),
            states@ == line_states(line@, active, inactive).take(j as int),
        decreases line@.len() - j,
    {
        let c = line[j];
        states.push(c == active || c != inactive);
        j = j + 1;
        assert(states@ =~= line_states(line@, active, inactive).take(j as int));
    }
    assert(states@ =~= line_states(line@, active, inactive));
    states
}


/// Two texts that break lines at the same places and give the same pixel
/// state at every position.
pub open spec fn same_reading(a: Seq<char>, b: Seq<char>, active: char, inactive: char) -> bool {
    &&& a.len() == b.len()
    &&& forall|j: int|
        0 <= j < a.len() ==> {
            &&& (a[j] == '\n') == (b[j] == '\n')
            &&& (a[j] == '\r') == (b[j] == '\r')
            &&& char_state(#[trigger] a[j], active, inactive) == char_state(b[j], active, inactive)
        }
}

/// Texts with the same reading split into lines with the same reading.
proof fn lemma_lines_same_reading(
    c1: Seq<char>,
    s1: Seq<char>,
    c2: Seq<char>,
    s2: Seq<char>,
    active: char,
    inactive: char,
)
    requires
        same_reading(c1, c2, active, inactive),
        same_reading(s1, s2, active, inactive),
    ensures
        lines_after(c1, s1).len() == lines_after(c2, s2).len(),
        forall|k: int|
            0 <= k < lines_after(c1, s1).len() ==> same_reading(
                #[trigger] lines_after(c1, s1)[k],
                lines_after(c2, s2)[k],
                active,
                inactive,
            ),
    decreases s1.len(),
{
    if s1.len() == 0 {
    } else {
        assert(s1[0] == '\n' <==> s2[0] == '\n');
        assert(same_reading(s1.drop_first(), s2.drop_first(), active, inactive)) by {
            assert forall|j: int| 0 <= j < s1.drop_first().len() implies {
                &&& (s1.drop_first()[j] == '\n') == (s2.drop_first()[j] == '\n')
                &&& (s1.drop_first()[j] == '\r') == (s2.drop_first()[j] == '\r')
                &&& char_state(#[trigger] s1.drop_first()[j], active, inactive) == char_state(
                    s2.drop_first()[j],
                    active,
                    inactive,
                )
            } by {
                assert(s1.drop_first()[j] == s1[j + 1]);
                assert(s2.drop_first()[j] == s2[j + 1]);
            }
        }
        if s1[0] == '\n' {
            let e = Seq::<char>::empty();
            lemma_lines_same_reading(e, s1.drop_first(), e, s2.drop_first(), active, inactive);
            let l1 = strip_cr(c1);
            let l2 = strip_cr(c2);
            assert(same_reading(l1, l2, active, inactive)) by {
                if c1.len() > 0 {
                    assert(c1.last() == '\r' <==> c2.last() == '\r');
                }
                assert forall|j: int| 0 <= j < l1.len() implies {
                    &&& (l1[j] == '\n') == (l2[j] == '\n')
                    &&& (l1[j] == '\r') == (l2[j] == '\r')
                    &&& char_state(#[trigger] l1[j], active, inactive) == char_state(
                        l2[j],
                        active,
                        inactive,
                    )
                } by {
                    assert(l1[j] == c1[j]);
                    assert(l2[j] == c2[j]);
                }
            }
            let r1 = lines_after(e, s1.drop_first());
            let r2 = lines_after(e, s2.drop_first());
            assert forall|k: int| 0 <= k < (seq![l1] + r1).len() implies same_reading(
                #[trigger] (seq![l1] + r1)[k],
                (seq![l2] + r2)[k],
                active,
                inactive,
            ) by {
                if k > 0 {
                    assert((seq![l1] + r1)[k] == r1[k - 1]);
                    assert((seq![l2] + r2)[k] == r2[k - 1]);
                }
            }
        } else {
            let d1 = c1.push(s1[0]);
            let d2 = c2.push(s2[0]);
            assert(same_reading(d1, d2, active, inactive)) by {
                assert forall|j: int| 0 <= j < d1.len() implies {
                    &&& (d1[j] == '\n') == (d2[j] == '\n')
                    &&& (d1[j] == '\r') == (d2[j] == '\r')
                    &&& char_state(#[trigger] d1[j], active, inactive) == char_state(
                        d2[j],
                        active,
                        inactive,
                    )
                } by {
                    if j < c1.len() {
                        assert(d1[j] == c1[j]);
                        assert(d2[j] == c2[j]);
                    }
                }
            }
            lemma_lines_same_reading(d1, s1.drop_first(), d2, s2.drop_first(), active, inactive);
        }
    }
}

/// Texts with the same reading describe the same logical matrix.
pub proof fn lemma_same_reading_same_matrix(
    a: Seq<char>,
    b: Seq<char>,
    active: char,
    inactive: char,
)
    requires
        same_reading(a, b, active, inactive),
    ensures
        text_matrix(a, active, inactive) == text_matrix(b, active, inactive),
{
    let e = Seq::<char>::empty();
    lemma_lines_same_reading(e, a, e, b, active, inactive);
    let la = lines_of(a);
    let lb = lines_of(b);
    let ma = text_matrix(a, active, inactive);
    let mb = text_matrix(b, active, inactive);
    assert forall|k: int| 0 <= k < ma.len() implies #[trigger] ma[k] == mb[k] by {
        assert(same_reading(la[k], lb[k], active, inactive));
        assert(ma[k] =~= mb[k]);
    }
    assert(ma =~= mb);
}

/// Writing an unrecognised character in place of `active` changes nothing:
/// both are read as an on pixel. (A line break character is not a pixel, so
/// neither `active` at that place nor `ch` may be one.)
pub proof fn lemma_unrecognised_reads_as_active(
    s: Seq<char>,
    k: int,
    ch: char,
    active: char,
    inactive: char,
)
    requires
        0 <= k < s.len(),
        s[k] == active,
        active != '\n',
        active != '\r',
        ch != active,
        ch != inactive,
        ch != '\n',
        ch != '\r',
    ensures
        text_matrix(s.update(k, ch), active, inactive) == text_matrix(s, active, inactive),
{
    let t = s.update(k, ch);
    assert(same_reading(t, s, active, inactive));
    lemma_same_reading_same_matrix(t, s, active, inactive);
}

} // verus!
