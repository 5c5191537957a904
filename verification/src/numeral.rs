use vstd::prelude::*;

verus! {

/// True of an ASCII decimal digit.
pub open spec fn is_digit(b: u8) -> bool {
    48 <= b <= 57
}

/// The decimal digits of `n` in ASCII, most significant first, no leading
/// zeros (a single `0` for zero).
pub open spec fn dec_digits(n: u64) -> Seq<u8>
    decreases n,
{
    if n < 10 {
        seq![(48 + n) as u8]
    } else {
        dec_digits(n / 10) + seq![(48 + n % 10) as u8]
    }
}

/// Reads a digit sequence onto an accumulator, most significant first, the
/// way a left-to-right scan does.
pub open spec fn fold_digits(acc: int, d: Seq<u8>) -> int
    decreases d.len(),
{
    if d.len() == 0 {
        acc
    } else {
        fold_digits(acc * 10 + (d[0] - 48), d.drop_first())
    }
}

/// Folding one more digit onto the end multiplies the value by ten and adds
/// the digit.
pub proof fn lemma_fold_digits_snoc(acc: int, d: Seq<u8>, c: u8)
    ensures
        fold_digits(acc, d.push(c)) == fold_digits(acc, d) * 10 + (c - 48),
    decreases d.len(),
{
    if d.len() == 0 {
        assert(d.push(c)[0] == c);
        assert(d.push(c).drop_first() =~= Seq::<u8>::empty());
        assert(fold_digits(acc, d.push(c)) == fold_digits(acc * 10 + (c - 48), d.push(c).drop_first()));
    } else {
        assert(d.push(c)[0] == d[0]);
        assert(d.push(c).drop_first() =~= d.drop_first().push(c));
        lemma_fold_digits_snoc(acc * 10 + (d[0] - 48), d.drop_first(), c);
    }
}

/// With a non-negative accumulator, folding digits never shrinks the value.
pub proof fn lemma_fold_digits_ge_acc(acc: int, d: Seq<u8>)
    requires
        acc >= 0,
        forall|i: int| 0 <= i < d.len() ==> is_digit(#[trigger] d[i]),
    ensures
        fold_digits(acc, d) >= acc,
    decreases d.len(),
{
    if d.len() > 0 {
        lemma_fold_digits_ge_acc(acc * 10 + (d[0] - 48), d.drop_first());
    }
}

/// The decimal digits of `n` are digits, there is at least one, and reading
/// them back yields `n`.
pub proof fn lemma_dec_digits_value(n: u64)
    ensures
        dec_digits(n).len() >= 1,
        forall|i: int| 0 <= i < dec_digits(n).len() ==> is_digit(#[trigger] dec_digits(n)[i]),
        fold_digits(0, dec_digits(n)) == n,
    decreases n,
{
    if n < 10 {
        assert(dec_digits(n) =~= seq![(48 + n) as u8]);
        assert(dec_digits(n)[0] == (48 + n) as u8);
        assert(dec_digits(n).drop_first() =~= Seq::<u8>::empty());
        assert(fold_digits(0, dec_digits(n)) == fold_digits(n as int, dec_digits(n).drop_first()));
        assert(fold_digits(0, dec_digits(n)) == n);
    } else {
        lemma_dec_digits_value(n / 10);
        assert(dec_digits(n) =~= dec_digits(n / 10).push((48 + n % 10) as u8));
        lemma_fold_digits_snoc(0, dec_digits(n / 10), (48 + n % 10) as u8);
        assert((n / 10) * 10 + n % 10 == n) by (nonlinear_arith);
    }
}

/// Renders `n` in decimal ASCII.
pub fn u64_to_dec(n: u64) -> (r: Vec<u8>)
    ensures
        r@ == dec_digits(n),
    decreases n,
{
    if n < 10 {
        let mut v: Vec<u8> = Vec::new();
        v.push((48 + n) as u8);
        proof {
            assert(v@ =~= dec_digits(n));
        }
        v
    } else {
        let mut v = u64_to_dec(n / 10);
        v.push((48 + n % 10) as u8);
        proof {
            assert(v@ =~= dec_digits(n));
        }
        v
    }
}

/// The decimal renderings of `ids`, joined by commas, in the given order.
pub open spec fn join_dec(ids: Seq<u64>) -> Seq<u8>
    decreases ids.len(),
{
    if ids.len() == 0 {
        Seq::empty()
    } else if ids.len() == 1 {
        dec_digits(ids[0])
    } else {
        join_dec(ids.drop_last()) + seq![44u8] + dec_digits(ids.last())
    }
}

/// Renders `ids` comma-joined in decimal, in input order.
pub fn join_ids(ids: &Vec<u64>) -> (r: Vec<u8>)
    ensures
        r@ == join_dec(ids@),
{
    let mut out: Vec<u8> = Vec::new();
    let mut i: usize = 0;
    proof {
        assert(out@ =~= join_dec(ids@.take(0)));
    }
    while i < ids.len()
        invariant
            i <= ids@.len(),
            out@ == join_dec(ids@.take(i as int)),
        decreases ids@.len() - i,
    {
        if i > 0 {
            out.push(44);
        }
        let mut digits = u64_to_dec(ids[i]);
        out.append(&mut digits);
        proof {
            assert(ids@.take(i + 1 as int).drop_last() =~= ids@.take(i as int));
            assert(out@ =~= join_dec(ids@.take(i + 1 as int)));
        }
        i = i + 1;
    }
    proof {
        assert(ids@.take(ids@.len() as int) =~= ids@);
    }
    out
}

} // verus!
