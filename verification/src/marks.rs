//! Which mutants the text of an instrumented file names.
//!
//! A switch names a mutant where it asks whether it is active:
//! `stryMutAct_9fa48("7")` asks for mutant 7.
use vstd::prelude::*;

use crate::assemble::ArmView;
use crate::assemble::Piece;
use crate::assemble::PlacedView;
use crate::collect::Placement;
use crate::estree::Span;

verus! {

/// How a switch names a mutant.
pub open spec fn mark_of(id: u32) -> Seq<char> {
    "stryMutAct_9fa48(\""@ + crate::text::decimal(id as nat) + "\""@
}

/// The text of a placement with the mutation of an arm applied.
pub open spec fn arm_text(s: Seq<char>, span: Span, arm: ArmView) -> Seq<char> {
    crate::collect::text_at(s, Span { start: span.start, end: arm.sub_span.start })
        + arm.replacement + crate::collect::text_at(
        s,
        Span { start: arm.sub_span.end, end: span.end },
    )
}

/// Whether a text names no mutant by `mark`.
spec fn lacks(text: Seq<char>, mark: Seq<char>) -> bool {
    forall|p: int| !(#[trigger] crate::text::occurs_at(text, mark, p))
}

proof fn lemma_lacks(text: Seq<char>, mark: Seq<char>)
    ensures
        lacks(text, mark) == !crate::text::has(text, mark),
{
    crate::text::lemma_find_from(text, mark, 0);
    if crate::text::has(text, mark) {
        let p = crate::text::find(text, mark)->0;
        assert(crate::text::occurs_at(text, mark, p));
    } else {
        assert forall|p: int| !(#[trigger] crate::text::occurs_at(text, mark, p)) by {
            if crate::text::occurs_at(text, mark, p) {
                crate::text::lemma_occurs_is_found(text, mark, 0, p);
            }
        }
    }
}

/// A character that stands in no mark.
spec fn is_foreign(c: char) -> bool {
    c == ' ' || c == ')' || c == '{' || c == '}' || c == '/' || c == '\n' || c == 'i'
}

/// The characters of a mark.
proof fn lemma_mark(id: u32)
    ensures
        mark_of(id).len() == 19 + crate::text::decimal(id as nat).len(),
        mark_of(id).len() >= 20,
        mark_of(id)[0] == 's',
        mark_of(id)[4] == 'M',
        mark_of(id)[15] == '8',
        mark_of(id)[17] == '"',
        mark_of(id).last() == '"',
        mark_of(id).take(18) == "stryMutAct_9fa48(\""@,
        "stryMutAct_9fa48(\""@.len() == 18,
        mark_of(id).subrange(18, mark_of(id).len() - 1) == crate::text::decimal(id as nat),
        forall|k: int| 0 < k < mark_of(id).len() ==> #[trigger] mark_of(id)[k] != 's',
        forall|k: int|
            0 <= k < mark_of(id).len() && k != 16 ==> #[trigger] mark_of(id)[k] != '(',
        forall|k: int| 18 <= k < mark_of(id).len() - 1 ==> #[trigger] mark_of(id)[k] != '"',
        forall|k: int| 0 <= k < mark_of(id).len() ==> !is_foreign(#[trigger] mark_of(id)[k]),
{
    reveal_strlit("stryMutAct_9fa48(\"");
    reveal_strlit("\"");
    let head = "stryMutAct_9fa48(\""@;
    let shown = seq![
        's',
        't',
        'r',
        'y',
        'M',
        'u',
        't',
        'A',
        'c',
        't',
        '_',
        '9',
        'f',
        'a',
        '4',
        '8',
        '(',
        '"',
    ];
    assert(head =~= shown);
    let digits = crate::text::decimal(id as nat);
    crate::text::lemma_decimal_digits(id as nat);
    let mark = mark_of(id);
    assert("\""@ =~= seq!['"']);
    assert(mark.take(18) =~= head);
    assert(mark.subrange(18, mark.len() - 1) =~= digits);
    assert forall|k: int| 0 <= k < 18 implies !is_foreign(#[trigger] shown[k]) && (k > 0
        ==> shown[k] != 's') && (k != 16 ==> shown[k] != '(') by {}
    assert forall|k: int| 0 <= k < mark.len() implies !is_foreign(#[trigger] mark[k]) && (k > 0
        ==> mark[k] != 's') && (k != 16 ==> mark[k] != '(') && (18 <= k < mark.len() - 1 ==> mark[k]
        != '"') by {
        if k < 18 {
            assert(mark[k] == shown[k]);
        } else if k < mark.len() - 1 {
            assert(mark[k] == digits[k - 18]);
            assert(crate::text::is_ascii_digit(digits[k - 18]));
        } else {
            assert(mark[k] == '"');
        }
    }
    assert(mark[0] == shown[0] && mark[4] == shown[4] && mark[15] == shown[15] && mark[17]
        == shown[17]);
}

/// Whether no mark reaches from one text into the next.
spec fn apart(a: Seq<char>, b: Seq<char>, mark: Seq<char>) -> bool {
    a.len() > 0 && b.len() > 0 ==> forall|k: int|
        0 < k < mark.len() ==> {
            ||| #[trigger] mark[k] != b[0]
            ||| mark[k - 1] != a.last()
            ||| k + 1 < mark.len() && (b.len() == 1 || mark[k + 1] != b[1])
        }
}

proof fn lemma_join(a: Seq<char>, b: Seq<char>, mark: Seq<char>)
    requires
        mark.len() > 0,
        lacks(a, mark),
        lacks(b, mark),
        apart(a, b, mark),
    ensures
        lacks(a + b, mark),
{
    let n = mark.len() as int;
    assert forall|p: int| !(#[trigger] crate::text::occurs_at(a + b, mark, p)) by {
        if crate::text::occurs_at(a + b, mark, p) {
            let window = (a + b).subrange(p, p + n);
            if p + n <= a.len() {
                assert(a.subrange(p, p + n) =~= window);
                assert(crate::text::occurs_at(a, mark, p));
            } else if p >= a.len() {
                assert(b.subrange(p - a.len(), p - a.len() + n) =~= window);
                assert(crate::text::occurs_at(b, mark, p - a.len()));
            } else {
                let k = a.len() - p;
                assert(window[k - 1] == a.last());
                assert(window[k] == b[0]);
                if k + 1 < n {
                    assert(window[k + 1] == b[1]);
                }
                assert(mark[k] == b[0]);
            }
        }
    }
}

/// Nothing reaches over a character that stands in no mark.
proof fn lemma_break(a: Seq<char>, b: Seq<char>, id: u32)
    requires
        lacks(a, mark_of(id)),
        lacks(b, mark_of(id)),
        a.len() > 0 ==> b.len() > 0 ==> is_foreign(a.last()) || is_foreign(b[0]) || b[0] == 's',
    ensures
        lacks(a + b, mark_of(id)),
{
    lemma_mark(id);
    let mark = mark_of(id);
    assert(apart(a, b, mark)) by {
        if a.len() > 0 && b.len() > 0 {
            assert forall|k: int| 0 < k < mark.len() implies (#[trigger] mark[k] != b[0] || mark[k
                - 1] != a.last()) by {
                assert(!is_foreign(mark[k - 1]));
            }
        }
    }
    lemma_join(a, b, mark);
}

proof fn lemma_short(text: Seq<char>, id: u32)
    requires
        text.len() < 20,
    ensures
        lacks(text, mark_of(id)),
{
    lemma_mark(id);
}

/// A text that has no `s`, or has only one that begins no mark, names no mutant.
proof fn lemma_few_letters(text: Seq<char>, id: u32, at: int)
    requires
        forall|i: int| 0 <= i < text.len() && i != at ==> #[trigger] text[i] != 's',
        0 <= at < text.len() ==> at + 4 < text.len() && text[at + 4] != 'M',
    ensures
        lacks(text, mark_of(id)),
{
    lemma_mark(id);
    let mark = mark_of(id);
    assert forall|p: int| !(#[trigger] crate::text::occurs_at(text, mark, p)) by {
        if crate::text::occurs_at(text, mark, p) {
            let window = text.subrange(p, p + mark.len());
            assert(window[0] == text[p]);
            assert(window[4] == text[p + 4]);
        }
    }
}

/// The mark of one mutant does not name another.
proof fn lemma_other_mark(other: u32, id: u32)
    requires
        other != id,
    ensures
        lacks(mark_of(other), mark_of(id)),
{
    lemma_mark(other);
    lemma_mark(id);
    let text = mark_of(other);
    let mark = mark_of(id);
    assert forall|p: int| !(#[trigger] crate::text::occurs_at(text, mark, p)) by {
        if crate::text::occurs_at(text, mark, p) {
            let window = text.subrange(p, p + mark.len());
            assert(window[0] == text[p]);
            assert(p == 0);
            let last = mark.len() - 1;
            assert(window[last] == text[last]);
            assert(last == text.len() - 1);
            assert(text =~= mark);
            crate::text::lemma_decimal_digits(other as nat);
            crate::text::lemma_decimal_digits(id as nat);
        }
    }
}

proof fn lemma_part(s: Seq<char>, span: Span, id: u32)
    requires
        lacks(s, mark_of(id)),
    ensures
        lacks(crate::collect::text_at(s, span), mark_of(id)),
{
    let mark = mark_of(id);
    let part = crate::collect::text_at(s, span);
    if crate::source::is_span(s, span.start as int, span.end as int) {
        crate::source::lemma_boundary_order(s, span.start as int, span.end as int);
        let from = crate::source::index_at(s, span.start as int);
        assert forall|p: int| !(#[trigger] crate::text::occurs_at(part, mark, p)) by {
            if crate::text::occurs_at(part, mark, p) {
                assert(s.subrange(from + p, from + p + mark.len()) =~= part.subrange(
                    p,
                    p + mark.len(),
                ));
                assert(crate::text::occurs_at(s, mark, from + p));
            }
        }
    } else {
        lemma_short(part, id);
    }
}

// ---- switches ----

/// Whether no text that an arm of a switch puts in place names a mutant.
pub open spec fn quiet_arms(s: Seq<char>, site: PlacedView, id: u32) -> bool {
    site.placement is Expression ==> forall|i: int|
        0 <= i < site.arms.len() ==> !crate::text::has(
            arm_text(s, site.placement.at(), #[trigger] site.arms[i]),
            mark_of(id),
        )
}

/// Whether the arms of a switch are those of other mutants, and the texts that
/// they put in place do not name this one.
pub open spec fn names_others(s: Seq<char>, site: PlacedView, id: u32) -> bool {
    &&& quiet_arms(s, site, id)
    &&& forall|i: int| 0 <= i < site.arms.len() ==> (#[trigger] site.arms[i]).id != id
}

proof fn lemma_ternary_arm(s: Seq<char>, span: Span, arm: ArmView, id: u32)
    requires
        arm.id != id,
        lacks(arm_text(s, span, arm), mark_of(id)),
    ensures
        lacks(crate::assemble::ternary_arm(s, span, arm), mark_of(id)),
        crate::assemble::ternary_arm(s, span, arm).len() > 0,
        crate::assemble::ternary_arm(s, span, arm)[0] == 's',
        crate::assemble::ternary_arm(s, span, arm).last() == ' ',
{
    reveal_strlit("\") ? ");
    reveal_strlit("\"");
    reveal_strlit(" : ");
    let test = mark_of(arm.id);
    let ask = seq![')', ' ', '?', ' '];
    let text = arm_text(s, span, arm);
    lemma_mark(arm.id);
    lemma_other_mark(arm.id, id);
    lemma_short(ask, id);
    lemma_break(test, ask, id);
    lemma_break(test + ask, text, id);
    lemma_short(" : "@, id);
    lemma_break(test + ask + text, " : "@, id);
    assert("\") ? "@ =~= "\""@ + ask);
    assert(crate::assemble::ternary_arm(s, span, arm) =~= test + ask + text + " : "@);
}

proof fn lemma_ternary_arms(s: Seq<char>, span: Span, arms: Seq<ArmView>, id: u32)
    requires
        forall|i: int|
            0 <= i < arms.len() ==> (#[trigger] arms[i]).id != id && lacks(
                arm_text(s, span, arms[i]),
                mark_of(id),
            ),
    ensures
        lacks(crate::assemble::ternary_arms(s, span, arms), mark_of(id)),
        arms.len() == 0 ==> crate::assemble::ternary_arms(s, span, arms).len() == 0,
        arms.len() > 0 ==> crate::assemble::ternary_arms(s, span, arms).len() > 0
            && crate::assemble::ternary_arms(s, span, arms)[0] == 's'
            && crate::assemble::ternary_arms(s, span, arms).last() == ' ',
    decreases arms.len(),
{
    if arms.len() == 0 {
        lemma_short(crate::assemble::ternary_arms(s, span, arms), id);
    } else {
        let front = crate::assemble::ternary_arms(s, span, arms.drop_last());
        let one = crate::assemble::ternary_arm(s, span, arms.last());
        assert forall|i: int| 0 <= i < arms.drop_last().len() implies (
        #[trigger] arms.drop_last()[i]).id != id && lacks(
            arm_text(s, span, arms.drop_last()[i]),
            mark_of(id),
        ) by {
            assert(arms.drop_last()[i] == arms[i]);
        }
        lemma_ternary_arms(s, span, arms.drop_last(), id);
        assert(arms[arms.len() - 1].id != id);
        lemma_ternary_arm(s, span, arms.last(), id);
        lemma_break(front, one, id);
    }
}

proof fn lemma_if_arms(arms: Seq<ArmView>, id: u32)
    requires
        forall|i: int| 0 <= i < arms.len() ==> (#[trigger] arms[i]).id != id,
    ensures
        lacks(crate::assemble::if_arms(arms), mark_of(id)),
        arms.len() == 0 ==> crate::assemble::if_arms(arms).len() == 0,
        arms.len() > 0 ==> crate::assemble::if_arms(arms).len() > 0 && crate::assemble::if_arms(
            arms,
        )[0] == 'i' && crate::assemble::if_arms(arms).last() == ' ',
    decreases arms.len(),
{
    if arms.len() == 0 {
        lemma_short(crate::assemble::if_arms(arms), id);
    } else {
        reveal_strlit("if (stryMutAct_9fa48(\"");
        reveal_strlit("stryMutAct_9fa48(\"");
        reveal_strlit("\"");
        reveal_strlit("\")) {} else ");
        let front = crate::assemble::if_arms(arms.drop_last());
        assert forall|i: int| 0 <= i < arms.drop_last().len() implies (
        #[trigger] arms.drop_last()[i]).id != id by {
            assert(arms.drop_last()[i] == arms[i]);
        }
        lemma_if_arms(arms.drop_last(), id);
        let other = arms.last().id;
        assert(arms[arms.len() - 1].id != id);
        let ask = seq!['i', 'f', ' ', '('];
        let test = mark_of(other);
        let then = seq![')', ')', ' ', '{', '}', ' ', 'e', 'l', 's', 'e', ' '];
        lemma_mark(other);
        lemma_other_mark(other, id);
        lemma_short(ask, id);
        lemma_short(then, id);
        lemma_break(ask, test, id);
        lemma_break(ask + test, then, id);
        let one = ask + test + then;
        assert(one[0] == 'i');
        lemma_break(front, one, id);
        assert("if (stryMutAct_9fa48(\""@ =~= ask + "stryMutAct_9fa48(\""@);
        assert("\")) {} else "@ =~= "\""@ + then);
        assert(crate::assemble::if_arms(arms) =~= front + one);
    }
}

proof fn lemma_id_list(arms: Seq<ArmView>)
    ensures
        forall|i: int|
            0 <= i < crate::assemble::id_list(arms).len() ==> #[trigger] crate::assemble::id_list(
                arms,
            )[i] != 's',
    decreases arms.len(),
{
    if arms.len() > 0 {
        reveal_strlit("\"");
        reveal_strlit(", ");
        lemma_id_list(arms.drop_last());
        let digits = crate::text::decimal(arms.last().id as nat);
        crate::text::lemma_decimal_digits(arms.last().id as nat);
        let one = "\""@ + digits + "\""@;
        assert forall|i: int| 0 <= i < one.len() implies #[trigger] one[i] != 's' by {
            if 1 <= i < one.len() - 1 {
                assert(one[i] == digits[i - 1]);
                assert(crate::text::is_ascii_digit(digits[i - 1]));
            }
        }
        let list = crate::assemble::id_list(arms);
        let front = crate::assemble::id_list(arms.drop_last());
        assert forall|i: int| 0 <= i < list.len() implies #[trigger] list[i] != 's' by {
            if arms.len() == 1 {
                assert(list[i] == one[i]);
            } else if i < front.len() {
                assert(list[i] == front[i]);
            } else if i >= front.len() + 2 {
                assert(list[i] == one[i - front.len() - 2]);
            }
        }
    }
}

/// What an expression switch says behind its arms.
proof fn lemma_cover_expression(arms: Seq<ArmView>, id: u32)
    ensures
        lacks("(stryCov_9fa48("@ + crate::assemble::id_list(arms) + "), "@, mark_of(id)),
        "(stryCov_9fa48("@.len() == 15,
        "(stryCov_9fa48("@[0] == '(',
        "), "@.len() == 3,
        "), "@[2] == ' ',
{
    reveal_strlit("(stryCov_9fa48(");
    reveal_strlit("), ");
    lemma_id_list(arms);
    let head = "(stryCov_9fa48("@;
    let shown = seq!['(', 's', 't', 'r', 'y', 'C', 'o', 'v', '_', '9', 'f', 'a', '4', '8', '('];
    assert(head =~= shown);
    let list = crate::assemble::id_list(arms);
    let text = head + list + "), "@;
    assert forall|i: int| 0 <= i < text.len() && i != 1 implies #[trigger] text[i] != 's' by {
        if i < 15 {
            assert(text[i] == shown[i]);
        } else if i < 15 + list.len() {
            assert(text[i] == list[i - 15]);
        } else {
            assert(text[i] == "), "@[i - 15 - list.len()]);
        }
    }
    assert(text[5] == shown[5]);
    lemma_few_letters(text, id, 1);
}

/// What a statement switch says behind its arms.
proof fn lemma_cover_statement(arms: Seq<ArmView>, id: u32)
    ensures
        lacks("{ stryCov_9fa48("@ + crate::assemble::id_list(arms) + "); "@, mark_of(id)),
        "{ stryCov_9fa48("@.len() == 16,
        "{ stryCov_9fa48("@[0] == '{',
        "); "@.len() == 3,
        "); "@[2] == ' ',
{
    reveal_strlit("{ stryCov_9fa48(");
    reveal_strlit("); ");
    lemma_id_list(arms);
    let head = "{ stryCov_9fa48("@;
    let shown = seq![
        '{',
        ' ',
        's',
        't',
        'r',
        'y',
        'C',
        'o',
        'v',
        '_',
        '9',
        'f',
        'a',
        '4',
        '8',
        '(',
    ];
    assert(head =~= shown);
    let list = crate::assemble::id_list(arms);
    let text = head + list + "); "@;
    assert forall|i: int| 0 <= i < text.len() && i != 2 implies #[trigger] text[i] != 's' by {
        if i < 16 {
            assert(text[i] == shown[i]);
        } else if i < 16 + list.len() {
            assert(text[i] == list[i - 16]);
        } else {
            assert(text[i] == "); "@[i - 16 - list.len()]);
        }
    }
    assert(text[6] == shown[6]);
    lemma_few_letters(text, id, 2);
}

/// Whether a mark that stands before a text cannot reach into it.
spec fn stands_off(text: Seq<char>) -> bool {
    &&& text.len() > 0
    &&& is_foreign(text[0]) || (text[0] == '(' && text.len() > 1 && text[1] != '"')
}

proof fn lemma_stand_off(a: Seq<char>, b: Seq<char>, id: u32)
    requires
        lacks(a, mark_of(id)),
        lacks(b, mark_of(id)),
        stands_off(b),
    ensures
        lacks(a + b, mark_of(id)),
{
    lemma_mark(id);
    let mark = mark_of(id);
    assert(apart(a, b, mark)) by {
        if a.len() > 0 && b.len() > 0 {
            assert forall|k: int| 0 < k < mark.len() implies (#[trigger] mark[k] != b[0] || mark[k
                - 1] != a.last() || (k + 1 < mark.len() && (b.len() == 1 || mark[k + 1] != b[1]))) by {
                if mark[k] == '(' {
                    assert(k == 16);
                }
            }
        }
    }
    lemma_join(a, b, mark);
}

proof fn lemma_opening(s: Seq<char>, site: PlacedView, id: u32)
    requires
        lacks(s, mark_of(id)),
        crate::assemble::fits(s, site),
        names_others(s, site, id),
    ensures
        lacks(
            crate::assemble::pieces_text(s, crate::assemble::opening(s, site)),
            mark_of(id),
        ),
        stands_off(crate::assemble::pieces_text(s, crate::assemble::opening(s, site))),
        crate::assemble::pieces_text(s, crate::assemble::opening(s, site)).last() == ' ',
{
    let span = site.placement.at();
    let pieces = crate::assemble::opening(s, site);
    let ids = crate::assemble::id_list(site.arms);
    match site.placement {
        Placement::Expression(_) => {
            reveal_strlit("(");
            crate::assemble::lemma_one_piece(s, pieces[0]);
            assert forall|i: int| 0 <= i < site.arms.len() implies (#[trigger] site.arms[i]).id
                != id && lacks(arm_text(s, span, site.arms[i]), mark_of(id)) by {
                lemma_lacks(arm_text(s, span, site.arms[i]), mark_of(id));
            }
            lemma_ternary_arms(s, span, site.arms, id);
            lemma_cover_expression(site.arms, id);
            let arms = crate::assemble::ternary_arms(s, span, site.arms);
            let cover = "(stryCov_9fa48("@ + ids + "), "@;
            reveal_strlit("(stryCov_9fa48(");
            assert(cover[0] == '(' && cover[1] == 's');
            lemma_short("("@, id);
            lemma_break("("@, arms, id);
            lemma_stand_off("("@ + arms, cover, id);
            let text = "("@ + arms + cover;
            assert(text[0] == '(');
            if site.arms.len() == 0 {
                assert(text[1] == cover[0]);
            } else {
                assert(text[1] == arms[0]);
            }
            assert(text.last() == "), "@[2]);
            assert(crate::assemble::pieces_text(s, pieces) =~= text);
        },
        Placement::BlockBody { .. } => {
            reveal_strlit("{");
            reveal_strlit(" ");
            crate::assemble::lemma_one_piece(s, pieces[0]);
            crate::assemble::lemma_one_piece(s, pieces[1]);
            crate::assemble::lemma_pieces_join(s, seq![pieces[0]], seq![pieces[1]]);
            assert(pieces =~= seq![pieces[0]] + seq![pieces[1]]);
            lemma_if_arms(site.arms, id);
            lemma_cover_statement(site.arms, id);
            let arms = crate::assemble::if_arms(site.arms);
            let cover = "{ stryCov_9fa48("@ + ids + "); "@;
            assert(cover[0] == '{');
            lemma_short(" "@, id);
            lemma_break(" "@, arms, id);
            lemma_break(" "@ + arms, cover, id);
            lemma_short("{"@, id);
            lemma_break("{"@, " "@ + arms + cover, id);
            let text = "{"@ + (" "@ + arms + cover);
            assert(text[0] == '{');
            assert(text.last() == "); "@[2]);
            assert(crate::assemble::pieces_text(s, pieces) =~= text);
        },
        Placement::Statements { .. } => {
            crate::assemble::lemma_one_piece(s, pieces[0]);
            lemma_if_arms(site.arms, id);
            lemma_cover_statement(site.arms, id);
            let arms = crate::assemble::if_arms(site.arms);
            let cover = "{ stryCov_9fa48("@ + ids + "); "@;
            assert(cover[0] == '{');
            lemma_break(arms, cover, id);
            let text = arms + cover;
            if site.arms.len() == 0 {
                assert(text[0] == cover[0]);
            } else {
                assert(text[0] == arms[0]);
            }
            assert(text.last() == "); "@[2]);
            assert(crate::assemble::pieces_text(s, pieces) =~= text);
        },
    }
}

proof fn lemma_closing(s: Seq<char>, site: PlacedView, id: u32)
    requires
        crate::assemble::fits(s, site),
    ensures
        lacks(crate::assemble::pieces_text(s, crate::assemble::closing(site)), mark_of(id)),
        crate::assemble::pieces_text(s, crate::assemble::closing(site)).len() > 0,
        is_foreign(crate::assemble::pieces_text(s, crate::assemble::closing(site))[0]),
        is_foreign(crate::assemble::pieces_text(s, crate::assemble::closing(site)).last()),
{
    reveal_strlit("))");
    reveal_strlit(" } ");
    reveal_strlit(" }");
    reveal_strlit("}");
    let pieces = crate::assemble::closing(site);
    crate::assemble::lemma_one_piece(s, pieces[0]);
    if site.placement is BlockBody {
        crate::assemble::lemma_one_piece(s, pieces[1]);
        crate::assemble::lemma_pieces_join(s, seq![pieces[0]], seq![pieces[1]]);
        assert(pieces =~= seq![pieces[0]] + seq![pieces[1]]);
        assert(crate::assemble::pieces_text(s, pieces) =~= " } "@ + "}"@);
    } else {
        assert(pieces =~= seq![pieces[0]]);
    }
    lemma_short(crate::assemble::pieces_text(s, pieces), id);
}

proof fn lemma_rendered(
    s: Seq<char>,
    all: Seq<PlacedView>,
    k: int,
    cursor: u32,
    end: u32,
    id: u32,
)
    requires
        lacks(s, mark_of(id)),
        forall|i: int| 0 <= i < all.len() ==> crate::assemble::fits(s, #[trigger] all[i]),
        forall|i: int| 0 <= i < all.len() ==> names_others(s, #[trigger] all[i], id),
    ensures
        lacks(
            crate::assemble::pieces_text(s, crate::assemble::rendered(s, all, k, cursor, end).0),
            mark_of(id),
        ),
    decreases all.len() - k,
{
    if k < 0 || k >= all.len() || all[k].placement.at().start >= end {
        let piece = Piece::Kept(Span { start: cursor, end });
        crate::assemble::lemma_one_piece(s, piece);
        lemma_part(s, Span { start: cursor, end }, id);
    } else {
        let site = all[k];
        let span = site.placement.at();
        let inner = crate::assemble::inside(site);
        let (body, next) = crate::assemble::rendered(s, all, k + 1, inner.start, inner.end);
        if k < next <= all.len() {
            let rest = crate::assemble::rendered(s, all, next, span.end, end).0;
            lemma_rendered(s, all, k + 1, inner.start, inner.end, id);
            lemma_rendered(s, all, next, span.end, end, id);
            let kept = Piece::Kept(Span { start: cursor, end: span.start });
            let first = seq![kept];
            let before = crate::assemble::opening(s, site);
            let after = crate::assemble::closing(site);
            crate::assemble::lemma_one_piece(s, kept);
            lemma_part(s, Span { start: cursor, end: span.start }, id);
            lemma_opening(s, site, id);
            lemma_closing(s, site, id);
            crate::assemble::lemma_pieces_join(s, first, before);
            crate::assemble::lemma_pieces_join(s, first + before, body);
            crate::assemble::lemma_pieces_join(s, first + before + body, after);
            crate::assemble::lemma_pieces_join(s, first + before + body + after, rest);
            let a = crate::assemble::pieces_text(s, first);
            let b = crate::assemble::pieces_text(s, before);
            let c = crate::assemble::pieces_text(s, body);
            let d = crate::assemble::pieces_text(s, after);
            let e = crate::assemble::pieces_text(s, rest);
            lemma_stand_off(a, b, id);
            assert((a + b).last() == b.last());
            lemma_break(a + b, c, id);
            lemma_break(a + b + c, d, id);
            assert((a + b + c + d).last() == d.last());
            lemma_break(a + b + c + d, e, id);
        } else {
            lemma_short(
                crate::assemble::pieces_text(
                    s,
                    crate::assemble::rendered(s, all, k, cursor, end).0,
                ),
                id,
            );
        }
    }
}

/// The text of an instrumented file names only the mutants of its switches: one
/// that has no arm, and that neither the source nor the header nor a mutated
/// text names, is named nowhere.
pub proof fn law_only_arms_are_named(
    s: Seq<char>,
    namespace: Seq<char>,
    ts_nocheck: bool,
    all: Seq<PlacedView>,
    id: u32,
)
    requires
        crate::assemble::well_placed(s, all),
        !crate::text::has(s, mark_of(id)),
        !crate::text::has(crate::header::header_text(namespace, ts_nocheck), mark_of(id)),
        forall|i: int| 0 <= i < all.len() ==> names_others(s, #[trigger] all[i], id),
    ensures
        !crate::text::has(
            crate::assemble::pieces_text(
                s,
                crate::assemble::instrumented_pieces(
                    s,
                    crate::header::header_text(namespace, ts_nocheck),
                    all,
                ),
            ),
            mark_of(id),
        ),
{
    let header = crate::header::header_text(namespace, ts_nocheck);
    let mark = mark_of(id);
    let start = crate::assemble::body_start(s) as u32;
    let end = crate::source::byte_len(s) as u32;
    let first = Piece::Kept(Span { start: 0, end: start });
    let second = Piece::Added(header);
    let rest = crate::assemble::rendered(s, all, 0, start, end).0;
    lemma_lacks(s, mark);
    lemma_lacks(header, mark);
    lemma_part(s, Span { start: 0, end: start }, id);
    crate::header::lemma_header_ends(namespace, ts_nocheck);
    crate::assemble::lemma_one_piece(s, first);
    crate::assemble::lemma_one_piece(s, second);
    crate::assemble::lemma_pieces_join(s, seq![first], seq![second]);
    assert(seq![first, second] =~= seq![first] + seq![second]);
    crate::assemble::lemma_pieces_join(s, seq![first, second], rest);
    let a = crate::assemble::pieces_text(s, seq![first]);
    lemma_break(a, header, id);
    lemma_rendered(s, all, 0, start, end, id);
    assert((a + header).last() == header.last());
    lemma_break(a + header, crate::assemble::pieces_text(s, rest), id);
    lemma_lacks(
        crate::assemble::pieces_text(s, crate::assemble::instrumented_pieces(s, header, all)),
        mark,
    );
}

} // verus!
