//! Structural validation of FEN (Forsyth-Edwards Notation) position strings:
//! six space-separated fields, a board of eight ranks separated by `/` whose
//! run-length-decoded width is eight squares each, a side to move, castling
//! rights, an en-passant square and two move counters.

use vstd::prelude::*;
use crate::text::is_digit;
use crate::text::lemma_split_on_first_absent;
use crate::text::lemma_split_on_no_sep;
use crate::text::split_chars;
use crate::text::split_on;

verus! {

/// One of the twelve piece letters.
pub open spec fn is_piece_char(c: char) -> bool {
    c == 'p' || c == 'n' || c == 'b' || c == 'r' || c == 'q' || c == 'k' || c == 'P' || c == 'N'
        || c == 'B' || c == 'R' || c == 'Q' || c == 'K'
}

/// A run length of empty squares, `'1'` through `'8'`.
pub open spec fn is_rank_digit(c: char) -> bool {
    ('1' as u32) <= (c as u32) && (c as u32) <= ('8' as u32)
}

/// How many squares one character of a rank stands for; characters outside
/// the legal set count none.
pub open spec fn square_count(c: char) -> int {
    if is_piece_char(c) {
        1
    } else if is_rank_digit(c) {
        (c as u32) - ('0' as u32)
    } else {
        0
    }
}

/// The run-length-decoded width of a rank.
pub open spec fn rank_squares(r: Seq<char>) -> int
    decreases r.len(),
{
    if r.len() == 0 {
        0
    } else {
        square_count(r[0]) + rank_squares(r.drop_first())
    }
}

/// A rank holds only piece letters and run lengths and decodes to exactly
/// eight squares.
pub open spec fn rank_ok(r: Seq<char>) -> bool {
    &&& forall|k: int| 0 <= k < r.len() ==> is_piece_char(r[k]) || is_rank_digit(r[k])
    &&& rank_squares(r) == 8
}

/// The board field: exactly eight ranks separated by `/`, each well-formed.
pub open spec fn board_ok(b: Seq<char>) -> bool {
    let ranks = split_on(b, '/');
    ranks.len() == 8 && (forall|i: int| 0 <= i < ranks.len() ==> rank_ok(ranks[i]))
}

/// The side to move: `w` or `b`.
pub open spec fn side_ok(f: Seq<char>) -> bool {
    f == seq!['w'] || f == seq!['b']
}

pub open spec fn is_castling_char(c: char) -> bool {
    c == 'K' || c == 'Q' || c == 'k' || c == 'q'
}

/// Castling rights: `-`, or one to four of the letters `KQkq`.
pub open spec fn castling_ok(f: Seq<char>) -> bool {
    f == seq!['-'] || (1 <= f.len() <= 4 && (forall|k: int|
        0 <= k < f.len() ==> is_castling_char(f[k])))
}

/// The en-passant square: `-`, or a file letter with rank `3` or `6`.
pub open spec fn en_passant_ok(f: Seq<char>) -> bool {
    f == seq!['-'] || (f.len() == 2 && ('a' as u32) <= (f[0] as u32) && (f[0] as u32) <= ('h'
        as u32) && (f[1] == '3' || f[1] == '6'))
}

/// A halfmove or fullmove counter: a nonempty digit string.
pub open spec fn counter_ok(f: Seq<char>) -> bool {
    f.len() >= 1 && (forall|k: int| 0 <= k < f.len() ==> is_digit(f[k]))
}

/// A structurally valid FEN string: six space-separated fields, each
/// well-formed.
pub open spec fn spec_fen_valid(s: Seq<char>) -> bool {
    let fields = split_on(s, ' ');
    &&& fields.len() == 6
    &&& board_ok(fields[0])
    &&& side_ok(fields[1])
    &&& castling_ok(fields[2])
    &&& en_passant_ok(fields[3])
    &&& counter_ok(fields[4])
    &&& counter_ok(fields[5])
}

/// A string without a rank separator has no valid board, so FEN validation
/// rejects it; the empty string has no fields at all and is rejected too.
pub proof fn lemma_fen_rejects_without_slash(s: Seq<char>)
    requires
        forall|k: int| 0 <= k < s.len() ==> s[k] != '/',
    ensures
        !spec_fen_valid(s),
{
    let fields = split_on(s, ' ');
    if fields.len() == 6 {
        lemma_split_on_first_absent(s, ' ', '/');
        lemma_split_on_no_sep(fields[0], '/');
        assert(split_on(fields[0], '/').len() == 1);
    }
}

proof fn lemma_rank_squares_push(s: Seq<char>, c: char)
    ensures
        rank_squares(s.push(c)) == rank_squares(s) + square_count(c),
    decreases s.len(),
{
    if s.len() == 0 {
        assert(s.push(c)[0] == c);
        assert(s.push(c).drop_first() =~= Seq::<char>::empty());
        assert(rank_squares(Seq::<char>::empty()) == 0);
        assert(rank_squares(s.push(c)) == square_count(c) + rank_squares(
            s.push(c).drop_first(),
        ));
    } else {
        lemma_rank_squares_push(s.drop_first(), c);
        assert(s.push(c)[0] == s[0]);
        assert(s.push(c).drop_first() =~= s.drop_first().push(c));
        assert(rank_squares(s.push(c)) == square_count(s[0]) + rank_squares(
            s.push(c).drop_first(),
        ));
    }
}

proof fn lemma_rank_squares_nonneg(r: Seq<char>)
    ensures
        rank_squares(r) >= 0,
    decreases r.len(),
{
    if r.len() > 0 {
        lemma_rank_squares_nonneg(r.drop_first());
    }
}

proof fn lemma_rank_squares_cat(a: Seq<char>, b: Seq<char>)
    ensures
        rank_squares(a + b) == rank_squares(a) + rank_squares(b),
    decreases a.len(),
{
    if a.len() == 0 {
        assert(a + b =~= b);
    } else {
        lemma_rank_squares_cat(a.drop_first(), b);
        assert((a + b)[0] == a[0]);
        assert((a + b).drop_first() =~= a.drop_first() + b);
    }
}

fn is_piece_exec(c: char) -> (r: bool)
    ensures
        r == is_piece_char(c),
{
    c == 'p' || c == 'n' || c == 'b' || c == 'r' || c == 'q' || c == 'k' || c == 'P' || c == 'N'
        || c == 'B' || c == 'R' || c == 'Q' || c == 'K'
}

fn square_count_exec(c: char) -> (n: u32)
    ensures
        n as int == square_count(c),
        n <= 8,
{
    let u = c as u32;
    if is_piece_exec(c) {
        1
    } else if 49 <= u && u <= 56 {
        u - 48
    } else {
        0
    }
}

fn rank_check(r: &Vec<char>) -> (b: bool)
    ensures
        b == rank_ok(r@),
{
    let mut i: usize = 0;
    while i < r.len()
        invariant
            i <= r.len(),
            forall|k: int| 0 <= k < i ==> is_piece_char(r@[k]) || is_rank_digit(r@[k]),
        decreases r.len() - i,
    {
        let c = r[i];
        let u = c as u32;
        if !(is_piece_exec(c) || (49 <= u && u <= 56)) {
            return false;
        }
        i = i + 1;
    }
    let mut total: u64 = 0;
    let mut j: usize = 0;
    proof {
        assert(r@.take(0) =~= Seq::<char>::empty());
    }
    while j < r.len()
        invariant
            j <= r.len(),
            total as int == rank_squares(r@.take(j as int)),
            total <= 8,
        decreases r.len() - j,
    {
        let c = r[j];
        proof {
            lemma_rank_squares_push(r@.take(j as int), r@[j as int]);
            assert(r@.take(j + 1 as int) =~= r@.take(j as int).push(r@[j as int]));
        }
        total = total + square_count_exec(c) as u64;
        j = j + 1;
        if total > 8 {
            proof {
                assert(r@ =~= r@.take(j as int) + r@.skip(j as int));
                lemma_rank_squares_cat(r@.take(j as int), r@.skip(j as int));
                lemma_rank_squares_nonneg(r@.skip(j as int));
            }
            return false;
        }
    }
    proof {
        assert(r@.take(r@.len() as int) =~= r@);
    }
    total == 8
}

/// Validates a FEN string given as characters, per `spec_fen_valid`.
pub fn fen_valid_chars(v: &Vec<char>) -> (b: bool)
    ensures
        b == spec_fen_valid(v@),
{
    let fields = split_chars(v, ' ');
    if fields.len() != 6 {
        return false;
    }
    proof {
        assert forall|i: int| 0 <= i < 6 implies fields@[i]@ == split_on(v@, ' ')[i] by {
            assert(fields.deep_view()[i] == fields@[i].deep_view());
        }
    }
    // board
    let ranks = split_chars(&fields[0], '/');
    if ranks.len() != 8 {
        proof {
            assert(ranks.deep_view().len() == ranks@.len());
            assert(split_on(split_on(v@, ' ')[0], '/').len() != 8);
        }
        return false;
    }
    proof {
        assert forall|i: int| 0 <= i < 8 implies ranks@[i]@ == split_on(fields@[0]@, '/')[i] by {
            assert(ranks.deep_view()[i] == ranks@[i].deep_view());
        }
    }
    proof {
        assert(fields.deep_view().len() == fields@.len());
        assert(ranks.deep_view().len() == ranks@.len());
    }
    let mut i: usize = 0;
    while i < 8
        invariant
            i <= 8,
            ranks.len() == 8,
            fields.len() == 6,
            split_on(v@, ' ').len() == 6,
            forall|k: int| 0 <= k < 6 ==> fields@[k]@ == split_on(v@, ' ')[k],
            forall|k: int| 0 <= k < 8 ==> ranks@[k]@ == split_on(fields@[0]@, '/')[k],
            split_on(fields@[0]@, '/').len() == 8,
            forall|k: int| 0 <= k < i ==> rank_ok(split_on(fields@[0]@, '/')[k]),
        decreases 8 - i,
    {
        if !rank_check(&ranks[i]) {
            proof {
                let board = split_on(v@, ' ')[0];
                assert(fields@[0]@ == board);
                assert(!rank_ok(split_on(board, '/')[i as int]));
                assert(!board_ok(board));
            }
            return false;
        }
        i = i + 1;
    }
    // side to move
    let side = &fields[1];
    proof {
        assert(seq!['w'].len() == 1 && seq!['w'][0] == 'w');
        assert(seq!['b'].len() == 1 && seq!['b'][0] == 'b');
        assert(seq!['-'].len() == 1 && seq!['-'][0] == '-');
    }
    if !(side.len() == 1 && (side[0] == 'w' || side[0] == 'b')) {
        return false;
    }
    proof {
        if side@[0] == 'w' {
            assert(side@ =~= seq!['w']);
        } else {
            assert(side@ =~= seq!['b']);
        }
    }
    // castling rights
    let castling = &fields[2];
    if castling.len() == 1 && castling[0] == '-' {
        proof {
            assert(castling@ =~= seq!['-']);
        }
    } else {
        if castling.len() < 1 || castling.len() > 4 {
            return false;
        }
        let mut k: usize = 0;
        while k < castling.len()
            invariant
                k <= castling.len(),
                1 <= castling@.len() <= 4,
                split_on(v@, ' ').len() == 6,
                castling@ == split_on(v@, ' ')[2],
                castling@ != seq!['-'],
                forall|m: int| 0 <= m < k ==> is_castling_char(castling@[m]),
            decreases castling.len() - k,
        {
            let c = castling[k];
            if !(c == 'K' || c == 'Q' || c == 'k' || c == 'q') {
                proof {
                    assert(!is_castling_char(castling@[k as int]));
                }
                return false;
            }
            k = k + 1;
        }
    }
    // en passant
    let ep = &fields[3];
    if ep.len() == 1 && ep[0] == '-' {
        proof {
            assert(ep@ =~= seq!['-']);
        }
    } else {
        let ok = ep.len() == 2 && {
            let f0 = ep[0] as u32;
            97 <= f0 && f0 <= 104 && (ep[1] == '3' || ep[1] == '6')
        };
        if !ok {
            return false;
        }
    }
    // counters
    let mut f: usize = 4;
    while f < 6
        invariant
            4 <= f <= 6,
            fields.len() == 6,
            forall|k: int| 0 <= k < 6 ==> fields@[k]@ == split_on(v@, ' ')[k],
            forall|k: int| 4 <= k < f ==> counter_ok(split_on(v@, ' ')[k]),
        decreases 6 - f,
    {
        let field = &fields[f];
        if field.len() < 1 {
            return false;
        }
        proof {
            assert(('0' as u32) == 48 && ('9' as u32) == 57);
        }
        let mut k: usize = 0;
        while k < field.len()
            invariant
                k <= field.len(),
                fields.len() == 6,
                4 <= f < 6,
                field@ == split_on(v@, ' ')[f as int],
                forall|m: int| 0 <= m < k ==> is_digit(field@[m]),
            decreases field.len() - k,
        {
            let u = field[k] as u32;
            if !(48 <= u && u <= 57) {
                proof {
                    assert(!is_digit(field@[k as int]));
                }
                return false;
            }
            k = k + 1;
        }
        f = f + 1;
    }
    true
}

} // verus!
