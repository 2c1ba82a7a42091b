use vstd::prelude::*;
use vstd::string::StringExecFns;
use crate::fibonacci::{fib, fib_fits, fib_spec};
use crate::text::{decimal_spec, decimal_string};

verus! {

/// `F(i) = v`.
pub open spec fn term_text(i: nat, v: nat) -> Seq<char> {
    "F("@ + decimal_spec(i) + ") = "@ + decimal_spec(v)
}

/// The terms of `s`, each as `term_text` of its index and value, joined by `, `.
pub open spec fn sequence_text(s: Seq<u64>) -> Seq<char>
    decreases s.len(),
{
    if s.len() == 0 {
        Seq::empty()
    } else if s.len() == 1 {
        term_text(0, s[0] as nat)
    } else {
        sequence_text(s.drop_last()) + ", "@ + term_text((s.len() - 1) as nat, s.last() as nat)
    }
}

/// Returns the sequence written out as `F(0) = 0, F(1) = 1, ...`.
pub fn format_sequence(sequence: &[u64]) -> (r: String)
    ensures
        r@ == sequence_text(sequence@),
{
    let mut out = String::new();
    let mut i: usize = 0;
    while i < sequence.len()
        invariant
            i <= sequence@.len(),
            out@ == sequence_text(sequence@.subrange(0, i as int)),
        decreases sequence@.len() - i,
    {
        let ghost before = out@;
        let ghost q = sequence@.subrange(0, i as int + 1);
        assert(q.drop_last() =~= sequence@.subrange(0, i as int));
        if i > 0 {
            out.append(", ");
        }
        out.append("F(");
        out.append(decimal_string(i as u64).as_str());
        out.append(") = ");
        out.append(decimal_string(sequence[i]).as_str());
        proof {
            if i == 0 {
                assert(out@ =~= term_text(0, q[0] as nat));
            } else {
                assert(out@ =~= before + ", "@ + term_text(i as nat, q.last() as nat));
            }
        }
        i = i + 1;
    }
    assert(sequence@.subrange(0, sequence@.len() as int) =~= sequence@);
    out
}

/// The description of the spiral for index `n`.
pub open spec fn spiral_description_text(n: nat) -> Seq<char> {
    "The Fibonacci spiral is created by drawing quarter-circle arcs connecting the opposite corners of squares in the Fibonacci tiling. For n = "@
        + decimal_spec(n) + ", the spiral contains "@ + decimal_spec(n + 1)
        + " rectangles, with the largest rectangle having a Fibonacci number of F("@
        + decimal_spec(n) + ") = "@ + decimal_spec(fib_spec(n)) + "."@
}

/// Returns a description of the spiral for index `n`, naming F(n).
pub fn get_spiral_description(n: u32) -> (r: String)
    requires
        fib_fits(n as nat),
    ensures
        r@ == spiral_description_text(n as nat),
{
    let mut out = String::from_str(
        "The Fibonacci spiral is created by drawing quarter-circle arcs connecting the opposite corners of squares in the Fibonacci tiling. For n = ",
    );
    out.append(decimal_string(n as u64).as_str());
    out.append(", the spiral contains ");
    out.append(decimal_string(n as u64 + 1).as_str());
    out.append(" rectangles, with the largest rectangle having a Fibonacci number of F(");
    out.append(decimal_string(n as u64).as_str());
    out.append(") = ");
    out.append(decimal_string(fib(n)).as_str());
    out.append(".");
    out
}

/// The font size, in points, of the label of a rectangle whose smaller side is
/// `min_side` pixels.
pub open spec fn label_font_size_spec(min_side: int) -> nat {
    if min_side > 80 {
        20
    } else if min_side > 60 {
        16
    } else if min_side > 40 {
        14
    } else if min_side > 25 {
        12
    } else {
        10
    }
}

/// Returns the font size for a rectangle's label, from a ladder on its smaller side.
pub fn label_font_size(width: i64, height: i64) -> (r: u32)
    ensures
        r == label_font_size_spec(if width <= height { width as int } else { height as int }),
{
    let min_side = if width <= height {
        width
    } else {
        height
    };
    if min_side > 80 {
        20
    } else if min_side > 60 {
        16
    } else if min_side > 40 {
        14
    } else if min_side > 25 {
        12
    } else {
        10
    }
}

/// The sum of the terms of `s`.
pub open spec fn terms_sum(s: Seq<u64>) -> nat
    decreases s.len(),
{
    if s.len() == 0 {
        0
    } else {
        terms_sum(s.drop_last()) + s.last() as nat
    }
}

/// Returns the sum of the terms of `sequence`, or `None` where it does not fit in a `u64`.
pub fn sequence_sum(sequence: &[u64]) -> (r: Option<u64>)
    ensures
        terms_sum(sequence@) <= u64::MAX ==> r == Some(terms_sum(sequence@) as u64),
        terms_sum(sequence@) > u64::MAX ==> r is None,
{
    let mut total: u64 = 0;
    let mut i: usize = 0;
    while i < sequence.len()
        invariant
            i <= sequence@.len(),
            total == terms_sum(sequence@.subrange(0, i as int)),
        decreases sequence@.len() - i,
    {
        let ghost q = sequence@.subrange(0, i as int + 1);
        assert(q.drop_last() =~= sequence@.subrange(0, i as int));
        match total.checked_add(sequence[i]) {
            Some(t) => {
                total = t;
            },
            None => {
                proof {
                    lemma_terms_sum_prefix(sequence@, i as nat + 1);
                }
                return None;
            },
        }
        i = i + 1;
    }
    assert(sequence@.subrange(0, sequence@.len() as int) =~= sequence@);
    Some(total)
}

/// A prefix never sums to more than the whole.
proof fn lemma_terms_sum_prefix(s: Seq<u64>, k: nat)
    requires
        k <= s.len(),
    ensures
        terms_sum(s.subrange(0, k as int)) <= terms_sum(s),
    decreases s.len() - k,
{
    if k < s.len() {
        lemma_terms_sum_prefix(s, k + 1);
        assert(s.subrange(0, k as int + 1).drop_last() =~= s.subrange(0, k as int));
    } else {
        assert(s.subrange(0, k as int) =~= s);
    }
}

} // verus!
