use vstd::arithmetic::div_mod::lemma_div_denominator;
use vstd::arithmetic::power2::{lemma2_to64, pow2};
use vstd::prelude::*;

use crate::board::{
    coord_of_led, lemma_led_coord, lemma_led_inverse, off, Board, Coord, IntoBoard, CELLS, SIZE,
};

verus! {

const BASE: u32 = 10;

/// Number of times `n` can be divided by 10 before it drops below 10.
pub open spec fn decimal_exponent(n: nat) -> nat
    decreases n,
{
    if n < 10 {
        0
    } else {
        1 + decimal_exponent(n / 10)
    }
}

/// The two leading decimal digits of `n`, as a number (`n` itself below 100).
pub open spec fn leading_digits(n: nat) -> nat
    decreases n,
{
    if n < 100 {
        n
    } else {
        leading_digits(n / 10)
    }
}

/// The two most significant decimal digits of `n`, the first one first; a
/// single-digit `n` is followed by 0.
pub open spec fn mantissa(n: nat) -> (nat, nat) {
    let m = leading_digits(n);
    let m = if m < 10 {
        m * 10
    } else {
        m
    };
    (m / 10, m % 10)
}

/// The lowest four bits of `n`, the most significant first.
pub open spec fn bits4(n: nat) -> Seq<bool> {
    seq![n / 8 % 2 == 1, n / 4 % 2 == 1, n / 2 % 2 == 1, n % 2 == 1]
}

/// Bit `k` of `n`, counting from the least significant.
spec fn bit_of(n: nat, k: int) -> bool {
    n / pow2(k as nat) % 2 == 1
}

/// The colour in which the score is shown.
pub open spec fn score_colour() -> smart_leds::RGB8 {
    smart_leds::RGB8 { r: 0x80, g: 0x80, b: 0x80 }
}

/// Whether the cell at `c` is lit when showing `score`: the bottom row holds
/// the exponent, the top row the first digit of the mantissa and the row
/// below it the second digit.
pub open spec fn score_lit(score: u32, c: Coord) -> bool {
    let (d0, d1) = mantissa(score as nat);
    (c.y == 0 && bits4(decimal_exponent(score as nat))[c.x as int]) || (c.y == SIZE - 1
        && bits4(d0)[c.x as int]) || (c.y == SIZE - 2 && bits4(d1)[c.x as int])
}

/// The frame that shows `score`, in wiring order.
pub open spec fn score_frame(score: u32) -> Seq<smart_leds::RGB8> {
    Seq::new(
        CELLS as nat,
        |j: int|
            if score_lit(score, coord_of_led(j)) {
                score_colour()
            } else {
                off()
            },
    )
}

proof fn lemma_exponent_bound(n: nat)
    ensures
        decimal_exponent(n) <= n,
    decreases n,
{
    if n >= 10 {
        lemma_exponent_bound(n / 10);
    }
}

/// Compute base 10 exponent of an integer.
pub fn compute_exponent(n: u32) -> (r: u32)
    ensures
        r == decimal_exponent(n as nat),
{
    let mut exponent: u32 = 0;
    let mut remaining = n;
    proof {
        lemma_exponent_bound(n as nat);
    }
    while remaining >= BASE
        invariant
            exponent + decimal_exponent(remaining as nat) == decimal_exponent(n as nat),
            decimal_exponent(n as nat) <= n,
        decreases remaining,
    {
        exponent = exponent + 1;
        remaining = remaining / BASE;
    }
    exponent
}

/// Compute 2 digit base 10 mantissa of an integer.
/// The most significant digit is returned first.
pub fn compute_mantissa(n: u32) -> (r: (u32, u32))
    ensures
        r.0 == mantissa(n as nat).0,
        r.1 == mantissa(n as nat).1,
{
    let mut remaining = n;
    while remaining >= BASE * BASE
        invariant
            leading_digits(remaining as nat) == leading_digits(n as nat),
        decreases remaining,
    {
        remaining = remaining / BASE;
    }
    if remaining < BASE {
        remaining = remaining * BASE;
    }
    let d0 = remaining / BASE;
    let d1 = remaining - BASE * d0;
    (d0, d1)
}

/// Transform number into 4-bit binary representation.
/// The most significant bit is returned first.
pub fn int_to_bin4(n: u32) -> (r: [bool; SIZE])
    ensures
        r@ == bits4(n as nat),
{
    let mut result = [false; SIZE];
    let mut remaining = n;
    let mut i: usize = 0;
    proof {
        lemma2_to64();
    }
    while i < SIZE
        invariant
            i <= SIZE,
            remaining == n as nat / pow2(i as nat),
            forall|k: int| 0 <= k < i ==> result@[SIZE - 1 - k] == #[trigger] bit_of(n as nat, k),
        decreases SIZE - i,
    {
        result[SIZE - i - 1] = remaining % 2 == 1;
        proof {
            lemma2_to64();
            lemma_div_denominator(n as int, pow2(i as nat) as int, 2);
            assert(pow2(i as nat) * 2 == pow2((i + 1) as nat));
        }
        remaining = remaining / 2;
        i = i + 1;
    }
    proof {
        assert(result@[3] == bit_of(n as nat, 0));
        assert(result@[2] == bit_of(n as nat, 1));
        assert(result@[1] == bit_of(n as nat, 2));
        assert(result@[0] == bit_of(n as nat, 3));
        lemma2_to64();
    }
    assert(result@ =~= bits4(n as nat));
    result
}

/// A frame that shows a score.
pub struct ScoreBoard {
    score: u32,
    board: Board,
}

impl ScoreBoard {
    /// The score shown.
    pub closed spec fn score_view(&self) -> u32 {
        self.score
    }

    /// Create a board with a score.
    pub fn from_score(score: u32) -> (r: ScoreBoard)
        ensures
            r.score_view() == score,
            r.frame() == score_frame(score),
    {
        let mut board = Board::new();

        let exp_bits = int_to_bin4(compute_exponent(score));

        let (d0, d1) = compute_mantissa(score);
        let d0_bits = int_to_bin4(d0);
        let d1_bits = int_to_bin4(d1);

        let mut i: usize = 0;
        while i < SIZE
            invariant
                i <= SIZE,
                exp_bits@ == bits4(decimal_exponent(score as nat)),
                d0_bits@ == bits4(mantissa(score as nat).0),
                d1_bits@ == bits4(mantissa(score as nat).1),
                board@.len() == CELLS,
                forall|j: int|
                    0 <= j < CELLS ==> #[trigger] board@[j] == if coord_of_led(j).x < i
                        && score_lit(score, coord_of_led(j)) {
                        score_colour()
                    } else {
                        off()
                    },
            decreases SIZE - i,
        {
            let bottom = Coord { x: i, y: 0 };
            let top = Coord { x: i, y: SIZE - 1 };
            let second = Coord { x: i, y: SIZE - 2 };
            proof {
                lemma_led_inverse(bottom);
                lemma_led_inverse(top);
                lemma_led_inverse(second);
            }
            let ghost before = board@;
            let colour = smart_leds::RGB8 { r: 0x80, g: 0x80, b: 0x80 };
            if exp_bits[i] {
                board.set_led(bottom, colour);
            }
            if d0_bits[i] {
                board.set_led(top, colour);
            }
            if d1_bits[i] {
                board.set_led(second, colour);
            }
            proof {
                assert forall|j: int| 0 <= j < CELLS implies #[trigger] board@[j] == if coord_of_led(
                    j,
                ).x < i + 1 && score_lit(score, coord_of_led(j)) {
                    score_colour()
                } else {
                    off()
                } by {
                    lemma_led_coord(j);
                    let c = coord_of_led(j);
                    if c.x == i {
                        if c.y == 0 {
                            assert(c == bottom);
                        } else if c.y == SIZE - 1 {
                            assert(c == top);
                        } else if c.y == SIZE - 2 {
                            assert(c == second);
                        }
                    } else {
                        assert(c != bottom && c != top && c != second);
                    }
                }
            }
            i = i + 1;
        }
        let r = ScoreBoard { score, board };
        assert(r.board@ =~= score_frame(score));
        r
    }
}

impl IntoBoard for ScoreBoard {
    closed spec fn frame(&self) -> Seq<smart_leds::RGB8> {
        self.board@
    }

    fn into_board(&self) -> (r: Board) {
        self.board
    }
}

} // verus!
