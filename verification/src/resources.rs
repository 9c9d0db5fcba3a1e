//! Names for new entries of a page's resource dictionaries: a prefix and the smallest
//! number that no entry with that prefix uses yet (`Im0`, `F3`, ...).
use vstd::prelude::*;
use vstd::set_lib::{lemma_int_range, set_int_range};
use crate::number::{all_digits, decimal, digit_value, digits_value, is_digit, lemma_digits_value_prefix, push_decimal};
use crate::text::chars_of;

verus! {

/// The value of `s` read as a `usize` the way `str::parse::<usize>` reads it: an optional
/// `+`, then at least one ASCII digit, and a value in the range of `usize`.
pub open spec fn parse_usize(s: Seq<char>) -> Option<nat> {
    let body = if s.len() > 0 && s[0] == '+' {
        s.drop_first()
    } else {
        s
    };
    if body.len() == 0 || !all_digits(body) || digits_value(body) > usize::MAX {
        None
    } else {
        Some(digits_value(body))
    }
}

/// The number that a resource name with `prefix` uses: the rest of the name after the
/// prefix, when it is not empty and reads as a `usize`.
pub open spec fn slot_number(key: Seq<char>, prefix: Seq<char>) -> Option<nat> {
    if key.len() > prefix.len() && key.take(prefix.len() as int) == prefix {
        parse_usize(key.skip(prefix.len() as int))
    } else {
        None
    }
}

/// Some name of `keys` uses number `i` after `prefix`.
pub open spec fn slot_taken(keys: Seq<String>, prefix: Seq<char>, i: nat) -> bool {
    exists|k: int| 0 <= k < keys.len() && slot_number(#[trigger] keys[k]@, prefix) == Some(i)
}

/// Reads `v[lo..hi]` as a `usize`, as `str::parse::<usize>` does.
fn parse_usize_chars(v: &Vec<char>, lo: usize, hi: usize) -> (r: Option<usize>)
    requires
        lo <= hi <= v.len(),
    ensures
        match r {
            Some(x) => parse_usize(v@.subrange(lo as int, hi as int)) == Some(x as nat),
            None => parse_usize(v@.subrange(lo as int, hi as int)) is None,
        },
{
    let ghost s = v@.subrange(lo as int, hi as int);
    let start = if lo < hi && v[lo] == '+' {
        lo + 1
    } else {
        lo
    };
    let ghost body = v@.subrange(start as int, hi as int);
    assert(body =~= (if s.len() > 0 && s[0] == '+' {
        s.drop_first()
    } else {
        s
    }));
    if start == hi {
        return None;
    }
    let mut acc: usize = 0;
    let mut i = start;
    assert(body.take(0) =~= Seq::<char>::empty());
    while i < hi
        invariant
            lo <= start <= i <= hi <= v.len(),
            s == v@.subrange(lo as int, hi as int),
            body == (if s.len() > 0 && s[0] == '+' {
                s.drop_first()
            } else {
                s
            }),
            body == v@.subrange(start as int, hi as int),
            body.len() > 0,
            all_digits(body.take(i - start)),
            acc == digits_value(body.take(i - start)),
        decreases hi - i,
    {
        let c = v[i];
        if !('0' <= c && c <= '9') {
            assert(body[i - start] == c);
            assert(!is_digit(body[i - start]));
            return None;
        }
        assert(body.take(i - start + 1).drop_last() =~= body.take(i - start));
        assert(body.take(i - start + 1).last() == c);
        let d = ((c as u32) - ('0' as u32)) as usize;
        assert(d == digit_value(c));
        assert(digits_value(body.take(i - start + 1)) == acc * 10 + d);
        let m = acc.checked_mul(10);
        if m.is_none() {
            proof {
                if all_digits(body) {
                    lemma_digits_value_prefix(body, i - start + 1);
                }
            }
            return None;
        }
        let a = m.unwrap().checked_add(d);
        if a.is_none() {
            proof {
                if all_digits(body) {
                    lemma_digits_value_prefix(body, i - start + 1);
                }
            }
            return None;
        }
        acc = a.unwrap();
        i = i + 1;
        assert(all_digits(body.take(i - start))) by {
            assert forall|j: int| 0 <= j < i - start implies #[trigger] is_digit(body.take(i - start)[j]) by {
                if j < i - start - 1 {
                    assert(body.take(i - start)[j] == body.take(i - start - 1)[j]);
                }
            }
        }
    }
    assert(body.take(i - start) =~= body);
    Some(acc)
}

/// The number that the name `key` uses after `prefix`, if any.
fn key_slot(key: &str, prefix: &Vec<char>) -> (r: Option<usize>)
    ensures
        match r {
            Some(x) => slot_number(key@, prefix@) == Some(x as nat),
            None => slot_number(key@, prefix@) is None,
        },
{
    let v = chars_of(key);
    let p = prefix.len();
    if v.len() <= p {
        return None;
    }
    let mut i: usize = 0;
    while i < p
        invariant
            v@ == key@,
            i <= p == prefix@.len() < v@.len(),
            forall|j: int| 0 <= j < i ==> v@[j] == #[trigger] prefix@[j],
        decreases p - i,
    {
        if v[i] != prefix[i] {
            assert(v@.take(p as int)[i as int] != prefix@[i as int]);
            return None;
        }
        i = i + 1;
    }
    assert(v@.take(p as int) =~= prefix@);
    assert(v@.skip(p as int) =~= v@.subrange(p as int, v@.len() as int));
    parse_usize_chars(&v, p, v.len())
}

/// A sequence that holds every value of a finite set of integers is at least as long as
/// the set.
proof fn lemma_holds_all(s: Seq<usize>, a: Set<int>)
    requires
        a.finite(),
        forall|x: int| a.contains(x) ==> exists|k: int| 0 <= k < s.len() && s[k] as int == x,
    ensures
        s.len() >= a.len(),
    decreases s.len(),
{
    if s.len() == 0 {
        if a.len() > 0 {
            if a =~= Set::<int>::empty() {
            } else {
                let x = choose|x: int| a.contains(x);
                assert(a.contains(x));
            }
        }
    } else {
        let t = s.drop_last();
        let l = s.last() as int;
        let b = a.remove(l);
        assert forall|x: int| b.contains(x) implies exists|k: int| 0 <= k < t.len() && t[k] as int == x by {
            let k = choose|k: int| 0 <= k < s.len() && s[k] as int == x;
            assert(k != s.len() - 1);
            assert(t[k] as int == x);
        }
        lemma_holds_all(t, b);
    }
}

/// Whether `v` holds `x`.
fn holds(v: &Vec<usize>, x: usize) -> (r: bool)
    ensures
        r == v@.contains(x),
{
    let mut i: usize = 0;
    while i < v.len()
        invariant
            i <= v@.len(),
            forall|j: int| 0 <= j < i ==> v@[j] != x,
        decreases v@.len() - i,
    {
        if v[i] == x {
            return true;
        }
        i = i + 1;
    }
    false
}

/// The name for a new resource: `prefix` and the smallest number that no name of `keys`
/// uses after `prefix`.
pub fn next_resource_slot(prefix: &str, keys: &Vec<String>) -> (r: String)
    ensures
        exists|i: nat|
            {
                &&& r@ == prefix@ + decimal(i)
                &&& !slot_taken(keys@, prefix@, i)
                &&& forall|j: nat| j < i ==> slot_taken(keys@, prefix@, j)
            },
{
    let p = chars_of(prefix);
    let mut used: Vec<usize> = Vec::new();
    let mut k: usize = 0;
    while k < keys.len()
        invariant
            k <= keys@.len(),
            p@ == prefix@,
            forall|x: usize| used@.contains(x) <==> slot_taken(keys@.take(k as int), prefix@, x as nat),
            forall|x: nat| slot_taken(keys@.take(k as int), prefix@, x) ==> x <= usize::MAX,
        decreases keys@.len() - k,
    {
        let slot = key_slot(keys[k].as_str(), &p);
        let ghost before = used@;
        let ghost seen = keys@.take(k as int);
        let ghost next = keys@.take(k + 1);
        assert(next =~= seen.push(keys@[k as int]));
        if let Some(x) = slot {
            used.push(x);
        }
        proof {
            assert forall|y: nat| slot_taken(next, prefix@, y) <==> (slot_taken(seen, prefix@, y) || slot_number(
                keys@[k as int]@,
                prefix@,
            ) == Some(y)) by {
                if slot_taken(next, prefix@, y) {
                    let q = choose|q: int| 0 <= q < next.len() && slot_number(#[trigger] next[q]@, prefix@) == Some(y);
                    if q < k {
                        assert(next[q] == seen[q]);
                        assert(slot_number(seen[q]@, prefix@) == Some(y));
                    }
                }
                if slot_taken(seen, prefix@, y) {
                    let q = choose|q: int| 0 <= q < seen.len() && slot_number(#[trigger] seen[q]@, prefix@) == Some(y);
                    assert(next[q] == seen[q]);
                    assert(slot_number(next[q]@, prefix@) == Some(y));
                }
                if slot_number(keys@[k as int]@, prefix@) == Some(y) {
                    assert(next[k as int] == keys@[k as int]);
                    assert(slot_number(next[k as int]@, prefix@) == Some(y));
                }
            }
            assert forall|x: usize| used@.contains(x) <==> slot_taken(next, prefix@, x as nat) by {
                if used@.contains(x) {
                    let q = choose|q: int| 0 <= q < used@.len() && used@[q] == x;
                    if q < before.len() {
                        assert(before[q] == x);
                        assert(before.contains(x));
                    }
                }
                if slot_taken(seen, prefix@, x as nat) {
                    assert(before.contains(x));
                    let q = choose|q: int| 0 <= q < before.len() && before[q] == x;
                    assert(used@[q] == x);
                }
                if slot_number(keys@[k as int]@, prefix@) == Some(x as nat) {
                    assert(used@[used@.len() - 1] == x);
                }
            }
        }
        k = k + 1;
    }
    assert(keys@.take(keys@.len() as int) =~= keys@);
    let mut index: usize = 0;
    let n = used.len();
    while holds(&used, index)
        invariant
            forall|j: int| 0 <= j < index ==> #[trigger] used@.contains(j as usize),
            index <= used@.len(),
            n == used@.len(),
        decreases used@.len() - index,
    {
        proof {
            let a = set_int_range(0, index + 1);
            lemma_int_range(0, index + 1);
            assert forall|x: int| a.contains(x) implies exists|q: int| 0 <= q < used@.len() && used@[q] as int == x by {
                assert(used@.contains(x as usize));
                let q = choose|q: int| 0 <= q < used@.len() && used@[q] == x as usize;
                assert(used@[q] as int == x);
            }
            lemma_holds_all(used@, a);
        }
        index = index + 1;
    }
    let mut r = String::new();
    r.append(prefix);
    push_decimal(&mut r, index as u64);
    proof {
        assert forall|j: nat| j < index implies slot_taken(keys@, prefix@, j) by {
            assert(used@.contains(j as usize));
        }
        assert(!slot_taken(keys@, prefix@, index as nat));
    }
    r
}

} // verus!
