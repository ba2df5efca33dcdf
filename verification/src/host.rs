use vstd::prelude::*;
use std::collections::HashSet;
use crate::text::{all_digits, digits_value_int, find_char_from, parse_digits_range, to_char_vec};

verus! {

broadcast use vstd::std_specs::hash::group_hash_axioms;

// ---------------------------------------------------------------------------
// Kernel cpu lists
//
// The kernel's cpu-list files name sets of processors as comma-separated
// entries, each a single id or a dash-separated range.  The host audit reads
// the files; this module gives their format its meaning.
// ---------------------------------------------------------------------------

/// The processors a single list entry names: nothing for an empty entry,
/// one id, or a half-open dash range.
pub open spec fn parse_cpu_token(t: Seq<char>) -> Option<Set<u32>> {
    if t.len() == 0 {
        Some(Set::empty())
    } else {
        let k = find_char_from(t, '-', 0);
        if k >= t.len() {
            if all_digits(t, 10) && digits_value_int(t, 10) <= u32::MAX {
                Some(Set::empty().insert(digits_value_int(t, 10) as u32))
            } else {
                None
            }
        } else {
            let lo = t.take(k as int);
            let hi = t.skip(k as int + 1);
            if lo.len() >= 1 && all_digits(lo, 10) && digits_value_int(lo, 10) <= u32::MAX
                && hi.len() >= 1 && all_digits(hi, 10) && digits_value_int(hi, 10) <= u32::MAX {
                Some(
                    Set::new(
                        |c: u32|
                            digits_value_int(lo, 10) <= c < digits_value_int(hi, 10),
                    ),
                )
            } else {
                None
            }
        }
    }
}

/// The processors a whole comma-separated list names.
pub open spec fn parse_cpu_list(s: Seq<char>) -> Option<Set<u32>>
    decreases s.len(),
{
    let k = find_char_from(s, ',', 0);
    if k >= s.len() {
        parse_cpu_token(s)
    } else {
        match parse_cpu_token(s.take(k as int)) {
            Some(head) => match parse_cpu_list(s.skip(k as int + 1)) {
                Some(rest) => Some(head.union(rest)),
                None => None,
            },
            None => None,
        }
    }
}

/// Index of the first `c` between `from` and `to`; `to` when none occurs.
fn find_char_idx(chars: &Vec<char>, from: usize, to: usize, c: char) -> (r: usize)
    requires
        from <= to <= chars@.len(),
    ensures
        from <= r <= to,
        r - from == find_char_from(chars@.subrange(from as int, to as int), c, 0),
{
    let ghost t = chars@.subrange(from as int, to as int);
    let mut k: usize = from;
    while k < to
        invariant
            from <= to <= chars@.len(),
            t == chars@.subrange(from as int, to as int),
            from <= k <= to,
            find_char_from(t, c, 0) == find_char_from(t, c, (k - from) as nat),
        decreases to - k,
    {
        proof {
            assert(t[k - from] == chars@[k as int]);
        }
        if chars[k] == c {
            return k;
        }
        k = k + 1;
    }
    k
}

/// Parses one list entry between `from` and `to` into `cpus`.
fn parse_cpu_token_range(chars: &Vec<char>, from: usize, to: usize, cpus: &mut HashSet<u32>) -> (ok:
    bool)
    requires
        vstd::std_specs::hash::obeys_key_model::<u32>(),
        from <= to <= chars@.len(),
    ensures
        ok == (parse_cpu_token(chars@.subrange(from as int, to as int)) is Some),
        ok ==> final(cpus)@ == old(cpus)@.union(
            parse_cpu_token(chars@.subrange(from as int, to as int)).unwrap(),
        ),
{
    let ghost t = chars@.subrange(from as int, to as int);
    if from == to {
        proof {
            assert(old(cpus)@.union(Set::empty()) =~= old(cpus)@);
        }
        return true;
    }
    let k = find_char_idx(chars, from, to, '-');
    if k == to {
        match parse_digits_range(chars, from, to, 10) {
            Some(v) => {
                if v > u32::MAX as u64 {
                    return false;
                }
                cpus.insert(v as u32);
                proof {
                    assert(cpus@ =~= old(cpus)@.union(
                        Set::empty().insert(digits_value_int(t, 10) as u32),
                    ));
                }
                true
            },
            None => false,
        }
    } else {
        proof {
            assert(t.take((k - from) as int) =~= chars@.subrange(from as int, k as int));
            assert(t.skip((k - from) as int + 1) =~= chars@.subrange(k as int + 1, to as int));
        }
        let lo = match parse_digits_range(chars, from, k, 10) {
            Some(v) => v,
            None => {
                return false;
            },
        };
        let hi = match parse_digits_range(chars, k + 1, to, 10) {
            Some(v) => v,
            None => {
                return false;
            },
        };
        if lo > u32::MAX as u64 || hi > u32::MAX as u64 {
            return false;
        }
        let ghost range = parse_cpu_token(t).unwrap();
        let mut c: u32 = lo as u32;
        proof {
            assert(cpus@ =~= old(cpus)@.union(Set::new(|x: u32| lo <= x < lo)));
        }
        while c < hi as u32
            invariant
                vstd::std_specs::hash::obeys_key_model::<u32>(),
                lo <= c <= u32::MAX,
                hi <= u32::MAX,
                lo as u32 <= c,
                c == lo as u32 || c <= hi as u32,
                cpus@ == old(cpus)@.union(Set::new(|x: u32| lo <= x < c)),
            decreases hi as u32 - c,
        {
            cpus.insert(c);
            proof {
                assert(cpus@ =~= old(cpus)@.union(Set::new(|x: u32| lo <= x < c + 1)));
            }
            c = c + 1;
        }
        proof {
            assert(range == Set::new(
                |x: u32|
                    digits_value_int(t.take((k - from) as int), 10) <= x < digits_value_int(
                        t.skip((k - from) as int + 1),
                        10,
                    ),
            ));
            if lo < hi {
                assert(c == hi as u32);
                assert(range =~= Set::new(|x: u32| lo <= x < c));
            } else {
                assert(c == lo as u32);
                assert(range =~= Set::new(|x: u32| lo <= x < c));
            }
            assert(cpus@ =~= old(cpus)@.union(range));
        }
        true
    }
}

/// Parses a kernel cpu list, for example `1,5-8`: the named processors, or
/// nothing when an entry is malformed.  The list is given as the file holds
/// it, with surrounding whitespace already removed.
pub fn parse_sys_cpu_format(sys_cpu: &str) -> (r: Option<HashSet<u32>>)
    requires
        vstd::std_specs::hash::obeys_key_model::<u32>(),
    ensures
        r is Some <==> parse_cpu_list(sys_cpu@) is Some,
        r matches Some(h) ==> h@ == parse_cpu_list(sys_cpu@).unwrap(),
{
    let chars = to_char_vec(sys_cpu);
    let mut cpus: HashSet<u32> = HashSet::new();
    let mut from: usize = 0;
    proof {
        assert(sys_cpu@.skip(0) =~= sys_cpu@);
    }
    loop
        invariant
            vstd::std_specs::hash::obeys_key_model::<u32>(),
            chars@ == sys_cpu@,
            0 <= from <= chars@.len(),
            (parse_cpu_list(sys_cpu@) is Some <==> parse_cpu_list(
                sys_cpu@.skip(from as int),
            ) is Some),
            parse_cpu_list(sys_cpu@) is Some ==> parse_cpu_list(sys_cpu@).unwrap() == cpus@.union(
                parse_cpu_list(sys_cpu@.skip(from as int)).unwrap(),
            ),
        decreases chars@.len() - from + 1,
    {
        let ghost suffix = sys_cpu@.skip(from as int);
        let k = find_char_idx(&chars, from, chars.len(), ',');
        proof {
            assert(suffix =~= chars@.subrange(from as int, chars@.len() as int));
        }
        if k == chars.len() {
            // last entry
            let ghost pre = cpus@;
            let ok = parse_cpu_token_range(&chars, from, k, &mut cpus);
            proof {
                assert(parse_cpu_list(suffix) == parse_cpu_token(suffix));
            }
            if !ok {
                return None;
            }
            proof {
                assert(cpus@ =~= parse_cpu_list(sys_cpu@).unwrap());
            }
            return Some(cpus);
        }
        proof {
            assert(suffix.take((k - from) as int) =~= chars@.subrange(from as int, k as int));
            assert(suffix.skip((k - from) as int + 1) =~= sys_cpu@.skip(k as int + 1));
        }
        let ghost pre = cpus@;
        let ok = parse_cpu_token_range(&chars, from, k, &mut cpus);
        if !ok {
            proof {
                assert(parse_cpu_list(suffix) is None);
            }
            return None;
        }
        proof {
            if parse_cpu_list(sys_cpu@) is Some {
                assert(parse_cpu_list(suffix).unwrap() == parse_cpu_token(
                    suffix.take((k - from) as int),
                ).unwrap().union(parse_cpu_list(sys_cpu@.skip(k as int + 1)).unwrap()));
                assert(parse_cpu_list(sys_cpu@).unwrap() =~= cpus@.union(
                    parse_cpu_list(sys_cpu@.skip(k as int + 1)).unwrap(),
                ));
            }
        }
        from = k + 1;
    }
}

} // verus!
