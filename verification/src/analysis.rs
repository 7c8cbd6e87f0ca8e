//! The identifiers of spatial cells and of phase cells in the analyses.
use vstd::prelude::*;
use crate::decimal::{int_text, lemma_int_text_has_no_colon, lemma_int_text_injective, push_i64};

verus! {

/// `"{cell_x}:{cell_y}"`.
pub open spec fn cell_id_text(cell_x: int, cell_y: int) -> Seq<char> {
    int_text(cell_x) + seq![':'] + int_text(cell_y)
}

/// `"p{phase}:{cell_x}:{cell_y}"`.
pub open spec fn phase_cell_id_text(phase: int, cell_x: int, cell_y: int) -> Seq<char> {
    seq!['p'] + int_text(phase) + seq![':'] + cell_id_text(cell_x, cell_y)
}

/// The identifier of the spatial cell `(cell_x, cell_y)`.
pub fn cell_id(cell_x: i32, cell_y: i32) -> (r: String)
    ensures
        r@ == cell_id_text(cell_x as int, cell_y as int),
{
    proof {
        reveal_strlit(":");
    }
    let mut r = String::new();
    push_i64(&mut r, cell_x as i64);
    r.append(":");
    push_i64(&mut r, cell_y as i64);
    assert(r@ =~= cell_id_text(cell_x as int, cell_y as int));
    r
}

/// The identifier of the cell `(cell_x, cell_y)` in the circle phase `phase`.
pub fn phase_cell_id(phase: i32, cell_x: i32, cell_y: i32) -> (r: String)
    ensures
        r@ == phase_cell_id_text(phase as int, cell_x as int, cell_y as int),
{
    proof {
        reveal_strlit("p");
        reveal_strlit(":");
    }
    let mut r = String::new();
    r.append("p");
    push_i64(&mut r, phase as i64);
    r.append(":");
    push_i64(&mut r, cell_x as i64);
    r.append(":");
    push_i64(&mut r, cell_y as i64);
    assert(r@ =~= phase_cell_id_text(phase as int, cell_x as int, cell_y as int));
    r
}

/// Two texts that each end at their first colon are the same when what
/// follows them is.
proof fn lemma_split_at_first_colon(a: Seq<char>, b: Seq<char>, c: Seq<char>, d: Seq<char>)
    requires
        a + seq![':'] + b == c + seq![':'] + d,
        forall|k: int| 0 <= k < a.len() ==> #[trigger] a[k] != ':',
        forall|k: int| 0 <= k < c.len() ==> #[trigger] c[k] != ':',
    ensures
        a == c,
        b == d,
{
    let s = a + seq![':'] + b;
    let t = c + seq![':'] + d;
    if a.len() < c.len() {
        assert(s[a.len() as int] == ':');
        assert(t[a.len() as int] == c[a.len() as int]);
    } else if c.len() < a.len() {
        assert(t[c.len() as int] == ':');
        assert(s[c.len() as int] == a[c.len() as int]);
    } else {
        assert(a =~= s.subrange(0, a.len() as int));
        assert(c =~= t.subrange(0, c.len() as int));
        assert(b =~= s.subrange((a.len() + 1) as int, s.len() as int));
        assert(d =~= t.subrange((c.len() + 1) as int, t.len() as int));
    }
}

/// Different spatial cells have different identifiers.
pub proof fn lemma_cell_id_injective(x1: int, y1: int, x2: int, y2: int)
    requires
        cell_id_text(x1, y1) == cell_id_text(x2, y2),
    ensures
        x1 == x2,
        y1 == y2,
{
    lemma_int_text_has_no_colon(x1);
    lemma_int_text_has_no_colon(x2);
    lemma_split_at_first_colon(int_text(x1), int_text(y1), int_text(x2), int_text(y2));
    lemma_int_text_injective(x1, x2);
    lemma_int_text_injective(y1, y2);
}

/// Different cells of different phases have different identifiers: the
/// identifier of a phase cell names its phase and its cell.
pub proof fn lemma_phase_cell_id_injective(p1: int, x1: int, y1: int, p2: int, x2: int, y2: int)
    requires
        phase_cell_id_text(p1, x1, y1) == phase_cell_id_text(p2, x2, y2),
    ensures
        p1 == p2,
        x1 == x2,
        y1 == y2,
{
    let s1 = phase_cell_id_text(p1, x1, y1);
    let s2 = phase_cell_id_text(p2, x2, y2);
    assert(s1.drop_first() =~= int_text(p1) + seq![':'] + cell_id_text(x1, y1));
    assert(s2.drop_first() =~= int_text(p2) + seq![':'] + cell_id_text(x2, y2));
    lemma_int_text_has_no_colon(p1);
    lemma_int_text_has_no_colon(p2);
    lemma_split_at_first_colon(
        int_text(p1),
        cell_id_text(x1, y1),
        int_text(p2),
        cell_id_text(x2, y2),
    );
    lemma_int_text_injective(p1, p2);
    lemma_cell_id_injective(x1, y1, x2, y2);
}

} // verus!
