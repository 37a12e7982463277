//! The discriminant range assigner: a left-to-right fold over an enum's
//! variants that resolves each retained variant to its dispatch keys, from a
//! mix of explicit values, value sets, and auto-incrementing ranges.

use vstd::prelude::*;

use crate::schema::Directive;
use crate::schema::VariantSpec;
use crate::schema::first_match_dir;
use crate::schema::first_parser_dir;
use crate::schema::has_skip_dir;
use crate::value::CompileError;

verus! {

/// One dispatch arm: the discriminant values it claims, and the index of the
/// variant it selects.
pub struct Arm {
    pub keys: Vec<u64>,
    pub variant: usize,
}

/// The mathematical shape of an `Arm`.
pub struct SArm {
    pub keys: Seq<u64>,
    pub variant: int,
}

/// The abstraction of an arm.
pub open spec fn arm_view(a: Arm) -> SArm {
    SArm { keys: a.keys@, variant: a.variant as int }
}

/// The abstraction of a sequence of arms.
pub open spec fn arms_view(s: Seq<Arm>) -> Seq<SArm> {
    s.map_values(|a: Arm| arm_view(a))
}

/// The discriminant rule of a variant: its first match directive, if any.
pub open spec fn variant_rule(v: VariantSpec) -> Option<Directive> {
    match first_match_dir(v.directives@, 0) {
        Some(i) => Some(v.directives@[i]),
        None => None,
    }
}

/// One step of the assigner: from the rule of a retained variant and the
/// range state, the keys the variant claims and the state that follows it.
///
/// An explicit value or a value set leaves the range state untouched.  A
/// skip rule without a count skips exactly one value, so the variant takes
/// the previous value plus two.  A variant without a rule takes the previous
/// value plus one while a range is open; while none is open it cannot be
/// matched, which is `UnmatchableVariant` for a delegated variant and
/// `UnanchoredVariant` otherwise.  A range end while no range is open is a
/// `RangeEndMismatch`: there is no previous value it could extend.
pub open spec fn variant_step(v: VariantSpec, state: Option<u64>) -> Result<
    (Seq<u64>, Option<u64>),
    CompileError,
> {
    match variant_rule(v) {
        Some(d) => match d {
            Directive::Val(x) => Ok((seq![x], state)),
            Directive::Values(xs) => Ok((xs@, state)),
            Directive::RangeStart(x) => {
                if state is None {
                    Ok((seq![x], Some(x)))
                } else {
                    Err(CompileError::NestedRange)
                }
            },
            Directive::RangeSkip(c) => {
                match state {
                    Some(last) => {
                        let count = match c {
                            Some(k) => k as int,
                            None => 1,
                        };
                        if last + count + 1 <= u64::MAX {
                            Ok((seq![(last + count + 1) as u64], Some((last + count + 1) as u64)))
                        } else {
                            Err(CompileError::DiscriminantOverflow)
                        }
                    },
                    None => Err(CompileError::UnanchoredSkip),
                }
            },
            Directive::RangeEnd(x) => {
                match state {
                    Some(last) => {
                        if x == last + 1 {
                            Ok((seq![x], None))
                        } else {
                            Err(CompileError::RangeEndMismatch)
                        }
                    },
                    None => Err(CompileError::RangeEndMismatch),
                }
            },
            _ => Ok((Seq::empty(), state)),
        },
        None => match state {
            Some(last) => {
                if last + 1 <= u64::MAX {
                    Ok((seq![(last + 1) as u64], Some((last + 1) as u64)))
                } else {
                    Err(CompileError::DiscriminantOverflow)
                }
            },
            None => {
                if first_parser_dir(v.directives@, 0) is Some {
                    Err(CompileError::UnmatchableVariant)
                } else {
                    Err(CompileError::UnanchoredVariant)
                }
            },
        },
    }
}

/// The dispatch arms of the variants from `i` on, threading the range state.
/// Skipped variants claim no arm and leave the state untouched.
pub open spec fn s_assign_from(vs: Seq<VariantSpec>, i: int, state: Option<u64>) -> Result<
    Seq<SArm>,
    CompileError,
>
    decreases vs.len() - i,
{
    if i < 0 || i >= vs.len() {
        Ok(Seq::empty())
    } else if has_skip_dir(vs[i].directives@) {
        s_assign_from(vs, i + 1, state)
    } else {
        match variant_step(vs[i], state) {
            Ok(ks) => match s_assign_from(vs, i + 1, ks.1) {
                Ok(rest) => Ok(seq![SArm { keys: ks.0, variant: i }] + rest),
                Err(e) => Err(e),
            },
            Err(e) => Err(e),
        }
    }
}

/// The dispatch arms of a whole variant list.
pub open spec fn s_assign(vs: Seq<VariantSpec>) -> Result<Seq<SArm>, CompileError> {
    s_assign_from(vs, 0, None)
}

/// A range end whose value is not the previous emitted value plus one — or
/// that stands while no range is open — always fails the assignment with
/// `RangeEndMismatch`: it is never silently rounded to a valid value.
pub proof fn lemma_range_end_mismatch(vs: Seq<VariantSpec>, i: int, state: Option<u64>, x: u64)
    requires
        0 <= i < vs.len(),
        !has_skip_dir(vs[i].directives@),
        variant_rule(vs[i]) == Some(Directive::RangeEnd(x)),
        match state {
            Some(last) => x != last + 1,
            None => true,
        },
    ensures
        s_assign_from(vs, i, state) == Err::<Seq<SArm>, CompileError>(
            CompileError::RangeEndMismatch,
        ),
{
}

/// The shape of an enum that opens a range at `s`, follows it with `n` bare
/// variants, and closes it with `v`: no variant carries any other directive.
pub open spec fn plain_range_shape(vs: Seq<VariantSpec>, s: u64, n: nat, v: u64) -> bool {
    &&& vs.len() == n + 2
    &&& vs[0].directives@ == seq![Directive::RangeStart(s)]
    &&& forall|i: int| 1 <= i <= n ==> (#[trigger] vs[i].directives@).len() == 0
    &&& vs[n as int + 1].directives@ == seq![Directive::RangeEnd(v)]
}

/// The assigner's walk over the tail of a plain range, entered at variant
/// `i` with the previous value `last`.
proof fn lemma_plain_range_chain(vs: Seq<VariantSpec>, s: u64, n: nat, v: u64, i: int, last: u64)
    requires
        plain_range_shape(vs, s, n, v),
        1 <= i <= n + 1,
        last == s + i - 1,
        s + n + 1 <= u64::MAX,
    ensures
        v == s + n + 1 ==> (s_assign_from(vs, i, Some(last)) matches Ok(rest) && rest.len() == n + 2
            - i && (forall|j: int|
            0 <= j < n + 2 - i ==> (#[trigger] rest[j]).keys == seq![(s + i + j) as u64]
                && rest[j].variant == i + j)),
        v != s + n + 1 ==> s_assign_from(vs, i, Some(last)) == Err::<Seq<SArm>, CompileError>(
            CompileError::RangeEndMismatch,
        ),
    decreases n + 2 - i,
{
    if i <= n {
        // A bare variant: it is retained, has no rule, and takes `last + 1`.
        assert(!has_skip_dir(vs[i].directives@));
        assert(first_match_dir(vs[i].directives@, 0) is None);
        assert(first_parser_dir(vs[i].directives@, 0) is None);
        let next: u64 = (last + 1) as u64;
        assert(variant_step(vs[i], Some(last)) == Ok::<(Seq<u64>, Option<u64>), CompileError>(
            (seq![next], Some(next)),
        ));
        lemma_plain_range_chain(vs, s, n, v, i + 1, next);
        if v == s + n + 1 {
            if let Ok(rest2) = s_assign_from(vs, i + 1, Some(next)) {
                let rest = seq![SArm { keys: seq![next], variant: i }] + rest2;
                assert(s_assign_from(vs, i, Some(last)) == Ok::<Seq<SArm>, CompileError>(rest));
                assert forall|j: int| 0 <= j < n + 2 - i implies (#[trigger] rest[j]).keys == seq![
                    (s + i + j) as u64,
                ] && rest[j].variant == i + j by {
                    if j > 0 {
                        assert(rest[j] == rest2[j - 1]);
                    }
                }
            }
        }
    } else {
        // The closing variant: its rule is the range end.
        assert(vs[i].directives@ == seq![Directive::RangeEnd(v)]);
        assert(!has_skip_dir(vs[i].directives@)) by {
            assert(forall|k: int|
                0 <= k < vs[i].directives@.len() ==> !(#[trigger] vs[i].directives@[k] is Skip));
        }
        assert(first_match_dir(vs[i].directives@, 0) == Some(0int));
        assert(variant_rule(vs[i]) == Some(Directive::RangeEnd(v)));
        if v == last + 1 {
            assert(variant_step(vs[i], Some(last)) == Ok::<(Seq<u64>, Option<u64>), CompileError>(
                (seq![v], None),
            ));
            assert(s_assign_from(vs, i + 1, None) == Ok::<Seq<SArm>, CompileError>(Seq::empty()));
            let rest = seq![SArm { keys: seq![v], variant: i }] + Seq::<SArm>::empty();
            assert(s_assign_from(vs, i, Some(last)) == Ok::<Seq<SArm>, CompileError>(rest));
            assert(rest.len() == 1);
            assert(rest[0].keys == seq![(s + i + 0) as u64]);
        } else {
            assert(variant_step(vs[i], Some(last)) == Err::<(Seq<u64>, Option<u64>), CompileError>(
                CompileError::RangeEndMismatch,
            ));
        }
    }
}

/// A contiguous range: an enum whose variants open a range at `s`, follow
/// it with `n` bare variants, and close it with `v` assigns, when `v` is
/// exactly `s + n + 1`, the discriminants `s, s + 1, …, s + n + 1` to its
/// variants in order, one each, with no gaps; with any other closing value
/// the assignment fails with `RangeEndMismatch`.
pub proof fn lemma_range_contiguous(vs: Seq<VariantSpec>, s: u64, n: nat, v: u64)
    requires
        plain_range_shape(vs, s, n, v),
        s + n + 1 <= u64::MAX,
    ensures
        v == s + n + 1 ==> (s_assign(vs) matches Ok(arms) && arms.len() == n + 2 && (forall|j: int|
            0 <= j < n + 2 ==> (#[trigger] arms[j]).keys == seq![(s + j) as u64] && arms[j].variant
                == j)),
        v != s + n + 1 ==> s_assign(vs) == Err::<Seq<SArm>, CompileError>(
            CompileError::RangeEndMismatch,
        ),
{
    assert(vs[0].directives@ == seq![Directive::RangeStart(s)]);
    assert(!has_skip_dir(vs[0].directives@)) by {
        assert(forall|k: int|
            0 <= k < vs[0].directives@.len() ==> !(#[trigger] vs[0].directives@[k] is Skip));
    }
    assert(first_match_dir(vs[0].directives@, 0) == Some(0int));
    assert(variant_rule(vs[0]) == Some(Directive::RangeStart(s)));
    assert(variant_step(vs[0], None) == Ok::<(Seq<u64>, Option<u64>), CompileError>(
        (seq![s], Some(s)),
    ));
    lemma_plain_range_chain(vs, s, n, v, 1, s);
    if v == s + n + 1 {
        if let Ok(rest2) = s_assign_from(vs, 1, Some(s)) {
            let arms = seq![SArm { keys: seq![s], variant: 0 }] + rest2;
            assert(s_assign(vs) == Ok::<Seq<SArm>, CompileError>(arms));
            assert forall|j: int| 0 <= j < n + 2 implies (#[trigger] arms[j]).keys == seq![
                (s + j) as u64,
            ] && arms[j].variant == j by {
                if j > 0 {
                    assert(arms[j] == rest2[j - 1]);
                }
            }
        }
    }
}

/// Copy a vector of discriminant values.
fn copy_keys(xs: &Vec<u64>) -> (r: Vec<u64>)
    ensures
        r@ == xs@,
{
    let mut out: Vec<u64> = Vec::new();
    let mut i: usize = 0;
    while i < xs.len()
        invariant
            i <= xs@.len(),
            out@ == xs@.subrange(0, i as int),
        decreases xs@.len() - i,
    {
        out.push(xs[i]);
        i = i + 1;
    }
    assert(out@ =~= xs@);
    out
}

/// One step of the assigner for a retained variant: its keys and the range
/// state that follows it.
pub fn step_keys(v: &VariantSpec, state: Option<u64>) -> (r: Result<
    (Vec<u64>, Option<u64>),
    CompileError,
>)
    ensures
        match r {
            Ok(ks) => variant_step(*v, state) == Ok::<(Seq<u64>, Option<u64>), CompileError>(
                (ks.0@, ks.1),
            ),
            Err(e) => variant_step(*v, state) == Err::<(Seq<u64>, Option<u64>), CompileError>(e),
        },
{
    match v.find_match_directive() {
        Some(k) => {
            match &v.directives[k] {
                Directive::Val(x) => {
                    let keys = vec![*x];
                    assert(keys@ =~= seq![*x]);
                    Ok((keys, state))
                },
                Directive::Values(xs) => Ok((copy_keys(xs), state)),
                Directive::RangeStart(x) => {
                    if state.is_none() {
                        let keys = vec![*x];
                        assert(keys@ =~= seq![*x]);
                        Ok((keys, Some(*x)))
                    } else {
                        Err(CompileError::NestedRange)
                    }
                },
                Directive::RangeSkip(c) => {
                    match state {
                        Some(last) => {
                            let count: u64 = match c {
                                Some(k2) => *k2,
                                None => 1,
                            };
                            if count < u64::MAX - last {
                                let next: u64 = last + count + 1;
                                let keys = vec![next];
                                assert(keys@ =~= seq![next]);
                                Ok((keys, Some(next)))
                            } else {
                                Err(CompileError::DiscriminantOverflow)
                            }
                        },
                        None => Err(CompileError::UnanchoredSkip),
                    }
                },
                Directive::RangeEnd(x) => {
                    match state {
                        Some(last) => {
                            if last < u64::MAX && *x == last + 1 {
                                let keys = vec![*x];
                                assert(keys@ =~= seq![*x]);
                                Ok((keys, None))
                            } else {
                                Err(CompileError::RangeEndMismatch)
                            }
                        },
                        None => Err(CompileError::RangeEndMismatch),
                    }
                },
                _ => {
                    // `find_match_directive` yields only match rules.
                    assert(false);
                    Err(CompileError::UnrecognizedDirective)
                },
            }
        },
        None => {
            match state {
                Some(last) => {
                    if last < u64::MAX {
                        let next: u64 = last + 1;
                        let keys = vec![next];
                        assert(keys@ =~= seq![next]);
                        Ok((keys, Some(next)))
                    } else {
                        Err(CompileError::DiscriminantOverflow)
                    }
                },
                None => {
                    if v.find_parser_directive().is_some() {
                        Err(CompileError::UnmatchableVariant)
                    } else {
                        Err(CompileError::UnanchoredVariant)
                    }
                },
            }
        },
    }
}

/// Resolve every retained variant of `vs` to its dispatch keys.
pub fn assign_arms(vs: &Vec<VariantSpec>) -> (r: Result<Vec<Arm>, CompileError>)
    ensures
        match r {
            Ok(arms) => s_assign(vs@) == Ok::<Seq<SArm>, CompileError>(arms_view(arms@)),
            Err(e) => s_assign(vs@) == Err::<Seq<SArm>, CompileError>(e),
        },
{
    let mut arms: Vec<Arm> = Vec::new();
    let mut state: Option<u64> = None;
    let mut i: usize = 0;
    while i < vs.len()
        invariant
            i <= vs@.len(),
            match s_assign_from(vs@, i as int, state) {
                Ok(rest) => s_assign(vs@) == Ok::<Seq<SArm>, CompileError>(
                    arms_view(arms@) + rest,
                ),
                Err(e) => s_assign(vs@) == Err::<Seq<SArm>, CompileError>(e),
            },
        decreases vs@.len() - i,
    {
        let v = &vs[i];
        if v.is_skipped() {
            i = i + 1;
            continue;
        }
        let ghost old_arms = arms@;
        let keys: Vec<u64>;
        match step_keys(v, state) {
            Ok(ks) => {
                keys = ks.0;
                state = ks.1;
            },
            Err(e) => {
                return Err(e);
            },
        }
        let arm = Arm { keys, variant: i };
        arms.push(arm);
        proof {
            assert(arms_view(arms@) =~= arms_view(old_arms).push(arm_view(arms@[arms@.len() - 1])));
        }
        i = i + 1;
        proof {
            if let Ok(rest) = s_assign_from(vs@, i as int, state) {
                assert(arms_view(arms@) + rest =~= arms_view(old_arms) + (seq![
                    arm_view(arms@[arms@.len() - 1]),
                ] + rest));
            }
        }
    }
    Ok(arms)
}

} // verus!
