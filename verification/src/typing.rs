//! Planning the input for typing text into a page element: the text is cut
//! at each blank-line separator ("\n\n"); paragraphs are inserted as text,
//! and between two paragraphs two Shift+Enter presses make a visible break
//! without submitting the field.
use vstd::prelude::*;
use vstd::string::StringExecFns;
use crate::text::{chars_of, decimal, push_decimal, push_str, string_from_chars};

verus! {

/// The paragraph separator: two newlines.
pub open spec fn blank_line() -> Seq<char> {
    seq!['\n', '\n']
}

/// `s` cut at each "\n\n", scanning from the left without overlaps, as
/// `str::split("\n\n")` does; always at least one (possibly empty) piece.
pub open spec fn split_paragraphs_spec(s: Seq<char>) -> Seq<Seq<char>>
    decreases s.len(),
{
    if s.len() == 0 {
        seq![Seq::<char>::empty()]
    } else if s.len() >= 2 && s[0] == '\n' && s[1] == '\n' {
        seq![Seq::<char>::empty()] + split_paragraphs_spec(s.skip(2))
    } else {
        let rest = split_paragraphs_spec(s.drop_first());
        rest.update(0, seq![s[0]] + rest[0])
    }
}

/// The pieces `parts` joined by "\n\n" (`[T]::join`).
pub open spec fn join_paragraphs(parts: Seq<Seq<char>>) -> Seq<char>
    decreases parts.len(),
{
    if parts.len() == 0 {
        Seq::empty()
    } else if parts.len() == 1 {
        parts[0]
    } else {
        parts[0] + blank_line() + join_paragraphs(parts.drop_first())
    }
}

pub proof fn lemma_split_nonempty(s: Seq<char>)
    ensures
        split_paragraphs_spec(s).len() >= 1,
    decreases s.len(),
{
    if s.len() == 0 {
    } else if s.len() >= 2 && s[0] == '\n' && s[1] == '\n' {
        lemma_split_nonempty(s.skip(2));
    } else {
        lemma_split_nonempty(s.drop_first());
    }
}

proof fn lemma_join_cons(p: Seq<char>, parts: Seq<Seq<char>>)
    requires
        parts.len() >= 1,
    ensures
        join_paragraphs(seq![p] + parts) == p + blank_line() + join_paragraphs(parts),
{
    assert((seq![p] + parts).drop_first() =~= parts);
}

proof fn lemma_join_update_first(c: char, parts: Seq<Seq<char>>)
    requires
        parts.len() >= 1,
    ensures
        join_paragraphs(parts.update(0, seq![c] + parts[0])) == seq![c] + join_paragraphs(parts),
{
    let u = parts.update(0, seq![c] + parts[0]);
    if parts.len() == 1 {
    } else {
        assert(u.drop_first() =~= parts.drop_first());
        assert(seq![c] + parts[0] + blank_line() + join_paragraphs(parts.drop_first()) =~= seq![c]
            + (parts[0] + blank_line() + join_paragraphs(parts.drop_first())));
    }
}

/// Splitting loses nothing: joining the paragraphs with "\n\n" gives back
/// the text.
pub proof fn lemma_split_join(s: Seq<char>)
    ensures
        join_paragraphs(split_paragraphs_spec(s)) == s,
    decreases s.len(),
{
    if s.len() == 0 {
    } else if s.len() >= 2 && s[0] == '\n' && s[1] == '\n' {
        lemma_split_join(s.skip(2));
        lemma_split_nonempty(s.skip(2));
        lemma_join_cons(Seq::empty(), split_paragraphs_spec(s.skip(2)));
        assert(Seq::<char>::empty() + blank_line() + s.skip(2) =~= s);
    } else {
        lemma_split_join(s.drop_first());
        lemma_split_nonempty(s.drop_first());
        lemma_join_update_first(s[0], split_paragraphs_spec(s.drop_first()));
        assert(seq![s[0]] + s.drop_first() =~= s);
    }
}

/// `p` holds no blank-line separator.
pub open spec fn no_separator(p: Seq<char>) -> bool {
    forall|j: int| 0 <= j < p.len() - 1 ==> !(#[trigger] p[j] == '\n' && p[j + 1] == '\n')
}

proof fn lemma_split_first_piece(t: Seq<char>)
    ensures
        split_paragraphs_spec(t).len() >= 1,
        ({
            let p0 = split_paragraphs_spec(t)[0];
            &&& p0.len() <= t.len()
            &&& t.take(p0.len() as int) == p0
            &&& split_paragraphs_spec(t).len() > 1 ==> p0.len() + 2 <= t.len() && t[p0.len() as int]
                == '\n' && t[p0.len() as int + 1] == '\n'
        }),
    decreases t.len(),
{
    lemma_split_nonempty(t);
    if t.len() == 0 {
        assert(t.take(0) =~= Seq::<char>::empty());
    } else if t.len() >= 2 && t[0] == '\n' && t[1] == '\n' {
        assert(t.take(0) =~= Seq::<char>::empty());
    } else {
        let u = t.drop_first();
        lemma_split_first_piece(u);
        let r = split_paragraphs_spec(u);
        let p0 = seq![t[0]] + r[0];
        assert(split_paragraphs_spec(t)[0] == p0);
        assert(t.take(p0.len() as int) =~= p0) by {
            assert forall|k: int| 0 <= k < p0.len() implies t.take(p0.len() as int)[k] == p0[k] by {
                if k > 0 {
                    assert(u.take(r[0].len() as int)[k - 1] == r[0][k - 1]);
                }
            }
        }
        if split_paragraphs_spec(t).len() > 1 {
            assert(u[r[0].len() as int] == t[p0.len() as int]);
        }
    }
}

/// Paragraphs are cut at the leftmost separators: no paragraph holds a
/// blank-line separator, and no paragraph but the last ends with a newline
/// (which would have begun an earlier separator).
pub proof fn lemma_split_pieces(s: Seq<char>)
    ensures
        forall|i: int|
            0 <= i < split_paragraphs_spec(s).len() ==> no_separator(
                #[trigger] split_paragraphs_spec(s)[i],
            ),
        forall|i: int|
            0 <= i < split_paragraphs_spec(s).len() - 1 ==> (#[trigger] split_paragraphs_spec(
                s,
            )[i]).len() == 0 || split_paragraphs_spec(s)[i].last() != '\n',
    decreases s.len(),
{
    lemma_split_nonempty(s);
    let r = split_paragraphs_spec(s);
    if s.len() == 0 {
    } else if s.len() >= 2 && s[0] == '\n' && s[1] == '\n' {
        lemma_split_pieces(s.skip(2));
        let rest = split_paragraphs_spec(s.skip(2));
        assert forall|i: int| 0 < i < r.len() implies #[trigger] r[i] == rest[i - 1] by {}
        assert(r[0] == Seq::<char>::empty());
        assert forall|i: int| 0 <= i < r.len() implies no_separator(#[trigger] r[i]) by {
            if i > 0 {
                assert(r[i] == rest[i - 1]);
            }
        }
        assert forall|i: int| 0 <= i < r.len() - 1 implies (#[trigger] r[i]).len() == 0
            || r[i].last() != '\n' by {
            if i > 0 {
                assert(r[i] == rest[i - 1]);
            }
        }
    } else {
        let u = s.drop_first();
        lemma_split_pieces(u);
        lemma_split_first_piece(u);
        let rest = split_paragraphs_spec(u);
        let p0 = seq![s[0]] + rest[0];
        assert(r[0] == p0);
        assert forall|i: int| 0 < i < r.len() implies #[trigger] r[i] == rest[i] by {}
        assert(no_separator(rest[0]));
        assert(no_separator(p0)) by {
            assert forall|j: int| 0 <= j < p0.len() - 1 implies !(#[trigger] p0[j] == '\n' && p0[j
                + 1] == '\n') by {
                if j > 0 {
                    assert(p0[j] == rest[0][j - 1]);
                    assert(p0[j + 1] == rest[0][j]);
                } else {
                    if rest[0].len() > 0 {
                        assert(u.take(rest[0].len() as int)[0] == rest[0][0]);
                        assert(p0[1] == u[0]);
                        assert(u[0] == s[1]);
                    }
                }
            }
        }
        assert forall|i: int| 0 <= i < r.len() implies no_separator(#[trigger] r[i]) by {
            if i > 0 {
                assert(r[i] == rest[i]);
            }
        }
        assert forall|i: int| 0 <= i < r.len() - 1 implies (#[trigger] r[i]).len() == 0
            || r[i].last() != '\n' by {
            if i > 0 {
                assert(r[i] == rest[i]);
            } else if rest[0].len() > 0 {
                assert(p0.last() == rest[0].last());
            } else {
                assert(u[0] == '\n' && u[1] == '\n');
                assert(s[1] == '\n');
                assert(p0.last() == s[0]);
            }
        }
    }
}

/// The text cut into paragraphs at each "\n\n".
pub fn split_paragraphs(text: &str) -> (parts: Vec<String>)
    ensures
        parts@.len() == split_paragraphs_spec(text@).len(),
        forall|i: int| 0 <= i < parts@.len() ==> #[trigger] parts@[i]@ == split_paragraphs_spec(text@)[i],
{
    let v = chars_of(text);
    let n = v.len();
    let mut done: Vec<String> = Vec::new();
    let mut cur: Vec<char> = Vec::new();
    let mut i: usize = 0;
    proof {
        assert(v@.skip(0) =~= v@);
        lemma_split_nonempty(v@);
        let r = split_paragraphs_spec(v@);
        assert(r =~= seq![Seq::<char>::empty() + r[0]] + r.drop_first());
    }
    while i < n
        invariant
            n == v@.len(),
            v@ == text@,
            i <= n,
            split_paragraphs_spec(v@).len() >= 1,
            ({
                let r = split_paragraphs_spec(v@.skip(i as int));
                &&& r.len() >= 1
                &&& split_paragraphs_spec(v@) == done@.map_values(|p: String| p@) + seq![cur@ + r[0]]
                    + r.drop_first()
            }),
        decreases n - i,
    {
        let ghost s = v@.skip(i as int);
        let ghost before = split_paragraphs_spec(v@);
        if i + 1 < n && v[i] == '\n' && v[i + 1] == '\n' {
            proof {
                assert(s.skip(2) =~= v@.skip(i + 2));
                lemma_split_nonempty(s.skip(2));
            }
            let ghost old_done = done@;
            let ghost old_cur = cur@;
            done.push(string_from_chars(cur.as_slice()));
            cur = Vec::new();
            i = i + 2;
            proof {
                let r2 = split_paragraphs_spec(v@.skip(i as int));
                let r = split_paragraphs_spec(s);
                assert(r == seq![Seq::<char>::empty()] + r2);
                assert(done@.map_values(|p: String| p@) =~= old_done.map_values(|p: String| p@).push(
                    old_cur,
                ));
                assert(r.drop_first() =~= r2);
                assert(before =~= done@.map_values(|p: String| p@) + seq![cur@ + r2[0]]
                    + r2.drop_first());
            }
        } else {
            proof {
                assert(s.drop_first() =~= v@.skip(i + 1));
                lemma_split_nonempty(s.drop_first());
            }
            let ghost old_cur = cur@;
            cur.push(v[i]);
            i = i + 1;
            proof {
                let r2 = split_paragraphs_spec(v@.skip(i as int));
                let r = split_paragraphs_spec(s);
                assert(r == r2.update(0, seq![s[0]] + r2[0]));
                assert(r[0] == seq![v@[i - 1]] + r2[0]);
                assert(old_cur + r[0] =~= cur@ + r2[0]);
                assert(r.drop_first() =~= r2.drop_first());
            }
        }
    }
    proof {
        assert(v@.skip(n as int) =~= Seq::<char>::empty());
        let r = split_paragraphs_spec(v@.skip(n as int));
        assert(r =~= seq![Seq::<char>::empty()]);
        assert(cur@ + r[0] =~= cur@);
    }
    let ghost old_done = done@;
    done.push(string_from_chars(cur.as_slice()));
    proof {
        assert(done@.map_values(|p: String| p@) =~= old_done.map_values(|p: String| p@).push(cur@));
        let target = split_paragraphs_spec(v@);
        assert(done@.map_values(|p: String| p@) =~= target);
        assert forall|k: int| 0 <= k < done@.len() implies #[trigger] done@[k]@ == target[k] by {
            assert(done@.map_values(|p: String| p@)[k] == done@[k]@);
        }
    }
    done
}

/// One input action of typing.
#[derive(Debug)]
pub enum TypeStep {
    /// Insert this text at the caret.
    InsertText(String),
    /// Press and release Enter with Shift held (a line break that does not submit).
    ShiftEnter,
}

/// The abstract form of an input action.
pub enum TypeAction {
    Insert(Seq<char>),
    ShiftEnter,
}

impl View for TypeStep {
    type V = TypeAction;

    open spec fn view(&self) -> TypeAction {
        match self {
            TypeStep::InsertText(s) => TypeAction::Insert(s@),
            TypeStep::ShiftEnter => TypeAction::ShiftEnter,
        }
    }
}

/// Typing one paragraph: inserting it, unless it is empty.
pub open spec fn insert_actions(p: Seq<char>) -> Seq<TypeAction> {
    if p.len() > 0 {
        seq![TypeAction::Insert(p)]
    } else {
        Seq::empty()
    }
}

/// Typing paragraphs each followed by a paragraph break (two Shift+Enter).
pub open spec fn actions_with_breaks(ps: Seq<Seq<char>>) -> Seq<TypeAction>
    decreases ps.len(),
{
    if ps.len() == 0 {
        Seq::empty()
    } else {
        actions_with_breaks(ps.drop_last()) + insert_actions(ps.last()) + seq![
            TypeAction::ShiftEnter,
            TypeAction::ShiftEnter,
        ]
    }
}

/// Typing paragraphs: each non-empty one inserted, two Shift+Enter between
/// consecutive ones.
pub open spec fn typing_actions(ps: Seq<Seq<char>>) -> Seq<TypeAction> {
    if ps.len() == 0 {
        Seq::empty()
    } else {
        actions_with_breaks(ps.drop_last()) + insert_actions(ps.last())
    }
}

/// The input actions for typing a text, and how many paragraphs it has.
#[derive(Debug)]
pub struct TypePlan {
    pub steps: Vec<TypeStep>,
    pub paragraphs: usize,
}

/// The input actions for typing `text`.
pub fn type_plan(text: &str) -> (plan: TypePlan)
    ensures
        plan.paragraphs == split_paragraphs_spec(text@).len(),
        plan.steps@.map_values(|s: TypeStep| s@) == typing_actions(split_paragraphs_spec(text@)),
{
    let parts = split_paragraphs(text);
    let ghost ps = split_paragraphs_spec(text@);
    proof {
        lemma_split_nonempty(text@);
    }
    let n = parts.len();
    let mut steps: Vec<TypeStep> = Vec::new();
    let mut i: usize = 0;
    while i < n
        invariant
            n == parts@.len(),
            n == ps.len(),
            n >= 1,
            forall|k: int| 0 <= k < n ==> #[trigger] parts@[k]@ == ps[k],
            i <= n,
            i < n ==> steps@.map_values(|s: TypeStep| s@) == actions_with_breaks(ps.take(i as int)),
            i == n ==> steps@.map_values(|s: TypeStep| s@) == typing_actions(ps),
        decreases n - i,
    {
        let ghost before = steps@.map_values(|s: TypeStep| s@);
        let ghost old_steps = steps@;
        let p = &parts[i];
        if chars_of(p.as_str()).len() > 0 {
            steps.push(TypeStep::InsertText(p.clone()));
        }
        let ghost mid = steps@;
        assert(mid.map_values(|s: TypeStep| s@) =~= before + insert_actions(ps[i as int]));
        if i + 1 < n {
            steps.push(TypeStep::ShiftEnter);
            steps.push(TypeStep::ShiftEnter);
            proof {
                assert(ps.take(i + 1).drop_last() =~= ps.take(i as int));
                assert(ps.take(i + 1).last() == ps[i as int]);
                assert(steps@.map_values(|s: TypeStep| s@) =~= before + insert_actions(ps[i as int])
                    + seq![TypeAction::ShiftEnter, TypeAction::ShiftEnter]);
            }
        } else {
            proof {
                assert(ps.drop_last() =~= ps.take(i as int));
            }
        }
        i = i + 1;
    }
    TypePlan { steps, paragraphs: n }
}

/// How many Shift+Enter presses the actions `acts` make.
pub open spec fn shift_enter_count(acts: Seq<TypeAction>) -> nat
    decreases acts.len(),
{
    if acts.len() == 0 {
        0
    } else {
        shift_enter_count(acts.drop_last()) + if acts.last() is ShiftEnter {
            1nat
        } else {
            0nat
        }
    }
}

proof fn lemma_count_concat(a: Seq<TypeAction>, b: Seq<TypeAction>)
    ensures
        shift_enter_count(a + b) == shift_enter_count(a) + shift_enter_count(b),
    decreases b.len(),
{
    if b.len() > 0 {
        lemma_count_concat(a, b.drop_last());
        assert((a + b).drop_last() =~= a + b.drop_last());
    } else {
        assert(a + b =~= a);
    }
}

proof fn lemma_insert_count(p: Seq<char>)
    ensures
        shift_enter_count(insert_actions(p)) == 0,
{
    let b = insert_actions(p);
    if p.len() > 0 {
        assert(b.drop_last() =~= Seq::<TypeAction>::empty());
        assert(b.last() == TypeAction::Insert(p));
        assert(shift_enter_count(b.drop_last()) == 0);
    }
}

proof fn lemma_two_breaks_count()
    ensures
        shift_enter_count(seq![TypeAction::ShiftEnter, TypeAction::ShiftEnter]) == 2,
{
    let c = seq![TypeAction::ShiftEnter, TypeAction::ShiftEnter];
    assert(c.drop_last() =~= seq![TypeAction::ShiftEnter]);
    assert(c.drop_last().drop_last() =~= Seq::<TypeAction>::empty());
    assert(shift_enter_count(c.drop_last().drop_last()) == 0);
    assert(shift_enter_count(c.drop_last()) == 1);
}

proof fn lemma_breaks_count(ps: Seq<Seq<char>>)
    ensures
        shift_enter_count(actions_with_breaks(ps)) == 2 * ps.len(),
    decreases ps.len(),
{
    if ps.len() > 0 {
        lemma_breaks_count(ps.drop_last());
        let a = actions_with_breaks(ps.drop_last());
        let b = insert_actions(ps.last());
        let c = seq![TypeAction::ShiftEnter, TypeAction::ShiftEnter];
        lemma_count_concat(a + b, c);
        lemma_count_concat(a, b);
        lemma_insert_count(ps.last());
        lemma_two_breaks_count();
    }
}

/// Paragraph breaks: typing a text with n paragraphs presses Shift+Enter
/// exactly 2(n-1) times.
pub proof fn lemma_type_plan_breaks(text: Seq<char>)
    ensures
        shift_enter_count(typing_actions(split_paragraphs_spec(text))) == 2 * (
        split_paragraphs_spec(text).len() - 1),
{
    let ps = split_paragraphs_spec(text);
    lemma_split_nonempty(text);
    lemma_breaks_count(ps.drop_last());
    let b = insert_actions(ps.last());
    lemma_count_concat(actions_with_breaks(ps.drop_last()), b);
    lemma_insert_count(ps.last());
}

/// The text that the actions `acts` leave in an empty field: inserted text
/// as it is, and a line break for each Shift+Enter.
pub open spec fn typed_text(acts: Seq<TypeAction>) -> Seq<char>
    decreases acts.len(),
{
    if acts.len() == 0 {
        Seq::empty()
    } else {
        typed_text(acts.drop_last()) + match acts.last() {
            TypeAction::Insert(p) => p,
            TypeAction::ShiftEnter => seq!['\n'],
        }
    }
}

/// The texts that the actions `acts` insert, in order.
pub open spec fn inserted_texts(acts: Seq<TypeAction>) -> Seq<Seq<char>>
    decreases acts.len(),
{
    if acts.len() == 0 {
        Seq::empty()
    } else {
        inserted_texts(acts.drop_last()) + match acts.last() {
            TypeAction::Insert(p) => seq![p],
            TypeAction::ShiftEnter => Seq::empty(),
        }
    }
}

proof fn lemma_typed_concat(a: Seq<TypeAction>, b: Seq<TypeAction>)
    ensures
        typed_text(a + b) == typed_text(a) + typed_text(b),
        inserted_texts(a + b) == inserted_texts(a) + inserted_texts(b),
    decreases b.len(),
{
    if b.len() == 0 {
        assert(a + b =~= a);
        assert(typed_text(a) + typed_text(b) =~= typed_text(a));
        assert(inserted_texts(a) + inserted_texts(b) =~= inserted_texts(a));
    } else {
        lemma_typed_concat(a, b.drop_last());
        assert((a + b).drop_last() =~= a + b.drop_last());
        assert((a + b).last() == b.last());
        let t = match b.last() {
            TypeAction::Insert(p) => p,
            TypeAction::ShiftEnter => seq!['\n'],
        };
        let u = match b.last() {
            TypeAction::Insert(p) => seq![p],
            TypeAction::ShiftEnter => Seq::<Seq<char>>::empty(),
        };
        assert(typed_text(a) + typed_text(b.drop_last()) + t =~= typed_text(a) + (typed_text(
            b.drop_last(),
        ) + t));
        assert(inserted_texts(a) + inserted_texts(b.drop_last()) + u =~= inserted_texts(a) + (
        inserted_texts(b.drop_last()) + u));
    }
}

proof fn lemma_insert_typed(p: Seq<char>)
    ensures
        typed_text(insert_actions(p)) == p,
        inserted_texts(insert_actions(p)) == (if p.len() > 0 {
            seq![p]
        } else {
            Seq::<Seq<char>>::empty()
        }),
{
    let a = insert_actions(p);
    if p.len() > 0 {
        assert(a.len() == 1);
        assert(a.last() == TypeAction::Insert(p));
        assert(a.drop_last() =~= Seq::<TypeAction>::empty());
        assert(typed_text(a.drop_last()) == Seq::<char>::empty());
        assert(inserted_texts(a.drop_last()) == Seq::<Seq<char>>::empty());
        assert(Seq::<char>::empty() + p =~= p);
        assert(Seq::<Seq<char>>::empty() + seq![p] =~= seq![p]);
    } else {
        assert(p =~= Seq::<char>::empty());
        assert(a.len() == 0);
    }
}

proof fn lemma_breaks_typed()
    ensures
        typed_text(seq![TypeAction::ShiftEnter, TypeAction::ShiftEnter]) == blank_line(),
        inserted_texts(seq![TypeAction::ShiftEnter, TypeAction::ShiftEnter]) == Seq::<
            Seq<char>,
        >::empty(),
{
    let c = seq![TypeAction::ShiftEnter, TypeAction::ShiftEnter];
    let c1 = c.drop_last();
    assert(c1 =~= seq![TypeAction::ShiftEnter]);
    assert(c1.drop_last() =~= Seq::<TypeAction>::empty());
    assert(typed_text(c1.drop_last()) == Seq::<char>::empty());
    assert(inserted_texts(c1.drop_last()) == Seq::<Seq<char>>::empty());
    assert(c1.last() == TypeAction::ShiftEnter);
    assert(c.last() == TypeAction::ShiftEnter);
    assert(typed_text(c1) =~= seq!['\n']);
    assert(typed_text(c) =~= blank_line());
    assert(inserted_texts(c1) =~= Seq::<Seq<char>>::empty());
    assert(inserted_texts(c) =~= Seq::<Seq<char>>::empty());
}

proof fn lemma_join_snoc(ps: Seq<Seq<char>>)
    requires
        ps.len() >= 2,
    ensures
        join_paragraphs(ps) == join_paragraphs(ps.drop_last()) + blank_line() + ps.last(),
    decreases ps.len(),
{
    if ps.len() == 2 {
        assert(ps.drop_first().len() == 1);
        assert(ps.drop_first()[0] == ps[1]);
        assert(ps.drop_last().len() == 1);
        assert(ps.drop_last()[0] == ps[0]);
        assert(join_paragraphs(ps.drop_first()) == ps[1]);
        assert(join_paragraphs(ps.drop_last()) == ps[0]);
        assert(ps.last() == ps[1]);
    } else {
        lemma_join_snoc(ps.drop_first());
        assert(ps.drop_first().drop_last() =~= ps.drop_last().drop_first());
        assert(ps.drop_last()[0] == ps[0]);
        assert(ps.drop_first().last() == ps.last());
        assert(ps[0] + blank_line() + (join_paragraphs(ps.drop_last().drop_first()) + blank_line()
            + ps.last()) =~= ps[0] + blank_line() + join_paragraphs(ps.drop_last().drop_first())
            + blank_line() + ps.last());
    }
}

proof fn lemma_typing_replays(ps: Seq<Seq<char>>)
    requires
        ps.len() >= 1,
    ensures
        typed_text(typing_actions(ps)) == join_paragraphs(ps),
        inserted_texts(typing_actions(ps)) == ps.filter(|p: Seq<char>| p.len() > 0),
    decreases ps.len(),
{
    reveal(Seq::filter);
    let q = ps.drop_last();
    lemma_insert_typed(ps.last());
    lemma_typed_concat(actions_with_breaks(q), insert_actions(ps.last()));
    if ps.len() == 1 {
        assert(q =~= Seq::<Seq<char>>::empty());
        assert(typed_text(Seq::<TypeAction>::empty()) + ps.last() =~= ps.last());
        assert(q.filter(|p: Seq<char>| p.len() > 0) =~= Seq::<Seq<char>>::empty());
        assert(inserted_texts(Seq::<TypeAction>::empty()) + inserted_texts(insert_actions(ps.last()))
            =~= inserted_texts(insert_actions(ps.last())));
        if ps.last().len() > 0 {
            assert(Seq::<Seq<char>>::empty().push(ps.last()) =~= seq![ps.last()]);
        }
    } else {
        lemma_typing_replays(q);
        let br = seq![TypeAction::ShiftEnter, TypeAction::ShiftEnter];
        assert(actions_with_breaks(q) == typing_actions(q) + br);
        lemma_typed_concat(typing_actions(q), br);
        lemma_breaks_typed();
        lemma_join_snoc(ps);
        assert(inserted_texts(typing_actions(q)) + Seq::<Seq<char>>::empty() =~= inserted_texts(
            typing_actions(q),
        ));
        if ps.last().len() > 0 {
            assert(q.filter(|p: Seq<char>| p.len() > 0) + seq![ps.last()] =~= q.filter(
                |p: Seq<char>| p.len() > 0,
            ).push(ps.last()));
        } else {
            assert(q.filter(|p: Seq<char>| p.len() > 0) + Seq::<Seq<char>>::empty() =~= q.filter(
                |p: Seq<char>| p.len() > 0,
            ));
        }
    }
}

/// Typing reproduces the text: replaying the planned actions in an empty
/// field (each Shift+Enter making a line break) gives back exactly the
/// text, and the texts inserted are the non-empty paragraphs of the text,
/// in order.
pub proof fn lemma_type_plan_reproduces_text(text: Seq<char>)
    ensures
        typed_text(typing_actions(split_paragraphs_spec(text))) == text,
        inserted_texts(typing_actions(split_paragraphs_spec(text))) == split_paragraphs_spec(
            text,
        ).filter(|p: Seq<char>| p.len() > 0),
{
    lemma_split_nonempty(text);
    lemma_split_join(text);
    lemma_typing_replays(split_paragraphs_spec(text));
}

/// The confirmation "Typed N chars (M paragraph[s]) into 'selector'", where N
/// counts the bytes of the UTF-8 text.
pub open spec fn typed_summary_spec(byte_len: nat, paragraphs: nat, selector: Seq<char>) -> Seq<char> {
    "Typed "@ + decimal(byte_len) + " chars ("@ + decimal(paragraphs) + " paragraph"@ + (if paragraphs
        == 1 {
        ""@
    } else {
        "s"@
    }) + ") into '"@ + selector + "'"@
}

/// The confirmation printed after typing.
pub fn typed_summary(byte_len: usize, paragraphs: usize, selector: &str) -> (s: String)
    ensures
        s@ == typed_summary_spec(byte_len as nat, paragraphs as nat, selector@),
{
    let mut s = String::from_str("Typed ");
    push_decimal(&mut s, byte_len as u64);
    push_str(&mut s, " chars (");
    push_decimal(&mut s, paragraphs as u64);
    push_str(&mut s, " paragraph");
    if paragraphs != 1 {
        push_str(&mut s, "s");
    } else {
        push_str(&mut s, "");
    }
    push_str(&mut s, ") into '");
    push_str(&mut s, selector);
    push_str(&mut s, "'");
    assert(s@ =~= typed_summary_spec(byte_len as nat, paragraphs as nat, selector@));
    s
}

} // verus!
