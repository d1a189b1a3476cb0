//! Navigation state: stepping between a building's lots, toggling the state
//! filter, and reading a deep link back out of the URL.
use vstd::prelude::*;
use crate::domain::{BuildingId, PropertyStateKind, kind_name, kind_named, parse_building_id, parsed_uuid};
use crate::text::{lemma_split_on_nonempty, split_on, trimmed, trim};

verus! {

/// The first index of `x` in `nums`, if any.
pub open spec fn position(nums: Seq<u32>, x: u32) -> Option<int>
    decreases nums.len(),
{
    if nums.len() == 0 {
        None
    } else {
        match position(nums.drop_last(), x) {
            Some(i) => Some(i),
            None => if nums.last() == x {
                Some(nums.len() - 1)
            } else {
                None
            },
        }
    }
}

/// Where stepping starts: the current lot's index, or the first lot when
/// there is no current lot or it is not in the list.
pub open spec fn start_index(nums: Seq<u32>, current: Option<u32>) -> int {
    match current {
        Some(n) => match position(nums, n) {
            Some(i) => i,
            None => 0,
        },
        None => 0,
    }
}

/// The lot `dir` steps from the current one, wrapping around at both ends.
pub open spec fn spec_cycle(nums: Seq<u32>, current: Option<u32>, dir: int) -> Option<u32> {
    if nums.len() == 0 {
        None
    } else {
        Some(nums[(start_index(nums, current) + dir) % (nums.len() as int)])
    }
}

proof fn lemma_position_bounds(nums: Seq<u32>, x: u32)
    ensures
        position(nums, x) matches Some(i) ==> 0 <= i < nums.len() && nums[i] == x,
        position(nums, x) is None ==> !nums.contains(x),
    decreases nums.len(),
{
    if nums.len() > 0 {
        lemma_position_bounds(nums.drop_last(), x);
        if position(nums.drop_last(), x) is None && nums.last() != x {
            assert forall|i: int| 0 <= i < nums.len() implies nums[i] != x by {
                if i < nums.len() - 1 {
                    assert(nums.drop_last()[i] == nums[i]);
                }
            }
        }
    }
}

proof fn lemma_position_prefix(nums: Seq<u32>, x: u32, i: int)
    requires
        0 <= i < nums.len(),
    ensures
        position(nums.subrange(0, i + 1), x) == match position(nums.subrange(0, i), x) {
            Some(j) => Some(j),
            None => if nums[i] == x {
                Some(i)
            } else {
                None
            },
        },
{
    assert(nums.subrange(0, i + 1).drop_last() =~= nums.subrange(0, i));
}

fn find_position(nums: &Vec<u32>, x: u32) -> (r: Option<usize>)
    ensures
        r matches Some(i) ==> position(nums@, x) == Some(i as int),
        r is None ==> position(nums@, x) is None,
{
    let mut i: usize = 0;
    proof {
        assert(nums@.subrange(0, 0) =~= Seq::<u32>::empty());
    }
    while i < nums.len()
        invariant
            i <= nums@.len(),
            position(nums@.subrange(0, i as int), x) is None,
        decreases nums@.len() - i,
    {
        proof {
            lemma_position_prefix(nums@, x, i as int);
        }
        if nums[i] == x {
            proof {
                lemma_position_prefix_extends(nums@, x, i as int + 1);
            }
            return Some(i);
        }
        i = i + 1;
    }
    proof {
        assert(nums@.subrange(0, nums@.len() as int) =~= nums@);
    }
    None
}

/// Once found in a prefix, a first position stays the first position.
proof fn lemma_position_prefix_extends(nums: Seq<u32>, x: u32, k: int)
    requires
        0 <= k <= nums.len(),
        position(nums.subrange(0, k), x) is Some,
    ensures
        position(nums, x) == position(nums.subrange(0, k), x),
    decreases nums.len() - k,
{
    if k < nums.len() {
        lemma_position_prefix(nums, x, k);
        lemma_position_prefix_extends(nums, x, k + 1);
    } else {
        assert(nums.subrange(0, k) =~= nums);
    }
}

/// Steps from the current lot to the next (`dir` = 1) or previous
/// (`dir` = -1) lot of a building, wrapping around; `None` when the
/// building has no lots.
pub fn cycle_appt(numbers: &Vec<u32>, current: Option<u32>, dir: i32) -> (r: Option<u32>)
    ensures
        r == spec_cycle(numbers@, current, dir as int),
{
    let len = numbers.len();
    if len == 0 {
        return None;
    }
    let idx: usize = match current {
        Some(n) => match find_position(numbers, n) {
            Some(i) => i,
            None => 0,
        },
        None => 0,
    };
    proof {
        match current {
            Some(n) => lemma_position_bounds(numbers@, n),
            None => {},
        }
        assert(0 <= start_index(numbers@, current) < len);
    }
    let next: usize = if dir >= 0 {
        let t = (idx as u128 + dir as u128) % (len as u128);
        t as usize
    } else {
        let back = ((0i64 - dir as i64) as u128) % (len as u128);
        let t = (idx as u128 + len as u128 - back) % (len as u128);
        proof {
            let l = len as int;
            let b = (0 - dir) as int;
            assert((idx + l - b % l) % l == (idx + dir) % l) by (nonlinear_arith)
                requires
                    l > 0,
                    b == -(dir as int),
                    b > 0,
                    0 <= idx < l,
            {
                vstd::arithmetic::div_mod::lemma_mod_add_multiples_vanish(idx + dir as int, l);
                vstd::arithmetic::div_mod::lemma_fundamental_div_mod(b, l);
                vstd::arithmetic::div_mod::lemma_mod_multiples_vanish(b / l, idx + dir as int + l, l);
            }
        }
        t as usize
    };
    Some(numbers[next])
}

/// With distinct lot numbers, stepping forward and then back returns to
/// the lot one started from.
pub proof fn lemma_cycle_round_trip(nums: Seq<u32>, x: u32)
    requires
        nums.contains(x),
        forall|i: int, j: int| 0 <= i < j < nums.len() ==> nums[i] != nums[j],
    ensures
        spec_cycle(nums, spec_cycle(nums, Some(x), 1), -1) == Some(x),
{
    lemma_position_bounds(nums, x);
    let l = nums.len() as int;
    let i = start_index(nums, Some(x));
    let j = (i + 1) % l;
    let y = nums[j];
    lemma_position_bounds(nums, y);
    let p = position(nums, y);
    assert(p == Some(j)) by {
        let q = p->0;
        if q != j {
            if q < j {
                assert(nums[q] != nums[j]);
            } else {
                assert(nums[j] != nums[q]);
            }
        }
    }
    assert((j - 1) % l == i) by (nonlinear_arith)
        requires
            l > 0,
            0 <= i < l,
            j == (i + 1) % l,
    {
        if i + 1 < l {
            vstd::arithmetic::div_mod::lemma_small_mod((i + 1) as nat, l as nat);
            vstd::arithmetic::div_mod::lemma_small_mod(i as nat, l as nat);
        } else {
            vstd::arithmetic::div_mod::lemma_mod_self_0(l);
            vstd::arithmetic::div_mod::lemma_mod_add_multiples_vanish(-1, l);
            vstd::arithmetic::div_mod::lemma_small_mod((l - 1) as nat, l as nat);
        }
    }
}


/// `filter` with every occurrence of `state` removed, order kept.
pub open spec fn without(filter: Seq<PropertyStateKind>, state: PropertyStateKind) -> Seq<PropertyStateKind>
    decreases filter.len(),
{
    if filter.len() == 0 {
        filter
    } else {
        let rest = without(filter.drop_last(), state);
        if filter.last() == state {
            rest
        } else {
            rest.push(filter.last())
        }
    }
}

/// A filter chip click: an active state is switched off, an inactive one on.
pub open spec fn spec_toggle(filter: Seq<PropertyStateKind>, state: PropertyStateKind) -> Seq<PropertyStateKind> {
    if filter.contains(state) {
        without(filter, state)
    } else {
        filter.push(state)
    }
}

proof fn lemma_without_contains(filter: Seq<PropertyStateKind>, state: PropertyStateKind, k: PropertyStateKind)
    ensures
        without(filter, state).contains(k) == (k != state && filter.contains(k)),
    decreases filter.len(),
{
    if filter.len() > 0 {
        let rest = filter.drop_last();
        lemma_without_contains(rest, state, k);
        if filter.contains(k) && k != state {
            let i = choose|i: int| 0 <= i < filter.len() && filter[i] == k;
            if i < filter.len() - 1 {
                assert(rest[i] == k);
            }
        }
        if rest.contains(k) {
            let i = choose|i: int| 0 <= i < rest.len() && rest[i] == k;
            assert(filter[i] == k);
        }
        if filter.last() != state {
            let w = without(rest, state);
            if w.push(filter.last()).contains(k) {
                let i = choose|i: int| 0 <= i < w.len() + 1 && w.push(filter.last())[i] == k;
                if i < w.len() {
                    assert(w[i] == k);
                }
            }
            if w.contains(k) {
                let i = choose|i: int| 0 <= i < w.len() && w[i] == k;
                assert(w.push(filter.last())[i] == k);
            }
            if k == filter.last() {
                assert(w.push(filter.last())[w.len() as int] == k);
            }
        }
    }
}

/// Toggling a state flips whether the filter contains it and leaves every
/// other state as it was.
pub proof fn lemma_toggle_flips(filter: Seq<PropertyStateKind>, state: PropertyStateKind, k: PropertyStateKind)
    ensures
        spec_toggle(filter, state).contains(state) == !filter.contains(state),
        k != state ==> spec_toggle(filter, state).contains(k) == filter.contains(k),
{
    lemma_without_contains(filter, state, state);
    lemma_without_contains(filter, state, k);
    if !filter.contains(state) {
        assert(filter.push(state)[filter.len() as int] == state);
        if filter.push(state).contains(k) && k != state {
            let i = choose|i: int| 0 <= i < filter.len() + 1 && filter.push(state)[i] == k;
            assert(filter[i] == k);
        }
        if filter.contains(k) {
            let i = choose|i: int| 0 <= i < filter.len() && filter[i] == k;
            assert(filter.push(state)[i] == k);
        }
    }
}

/// Switches `state` off when the filter has it, on when it does not.
pub fn toggle_state(filter: Vec<PropertyStateKind>, state: PropertyStateKind) -> (r: Vec<PropertyStateKind>)
    ensures
        r@ == spec_toggle(filter@, state),
{
    let mut on = false;
    let mut i: usize = 0;
    while i < filter.len()
        invariant
            i <= filter@.len(),
            on == filter@.subrange(0, i as int).contains(state),
        decreases filter@.len() - i,
    {
        proof {
            let pre = filter@.subrange(0, i + 1);
            assert(pre.drop_last() =~= filter@.subrange(0, i as int));
            if filter@.subrange(0, i as int).contains(state) {
                let j = choose|j: int| 0 <= j < i && filter@.subrange(0, i as int)[j] == state;
                assert(pre[j] == state);
            }
            if pre.contains(state) && filter@[i as int] != state {
                let j = choose|j: int| 0 <= j < i + 1 && pre[j] == state;
                assert(filter@.subrange(0, i as int)[j] == state);
            }
            assert(pre[i as int] == filter@[i as int]);
        }
        if filter[i] == state {
            on = true;
        }
        i = i + 1;
    }
    proof {
        assert(filter@.subrange(0, filter@.len() as int) =~= filter@);
    }
    if !on {
        let mut f = filter;
        f.push(state);
        return f;
    }
    let mut out: Vec<PropertyStateKind> = Vec::new();
    let mut j: usize = 0;
    proof {
        assert(filter@.subrange(0, 0) =~= Seq::<PropertyStateKind>::empty());
    }
    while j < filter.len()
        invariant
            j <= filter@.len(),
            out@ == without(filter@.subrange(0, j as int), state),
        decreases filter@.len() - j,
    {
        proof {
            let pre = filter@.subrange(0, j + 1);
            assert(pre.drop_last() =~= filter@.subrange(0, j as int));
        }
        if filter[j] != state {
            out.push(filter[j]);
        }
        j = j + 1;
    }
    proof {
        assert(filter@.subrange(0, filter@.len() as int) =~= filter@);
    }
    out
}


/// An ASCII decimal digit.
pub open spec fn is_digit(c: char) -> bool {
    '0' <= c && c <= '9'
}

/// Every character of `s` is a decimal digit.
pub open spec fn all_digits(s: Seq<char>) -> bool {
    forall|i: int| 0 <= i < s.len() ==> is_digit(#[trigger] s[i])
}

/// The value of a run of decimal digits.
pub open spec fn digits_value(s: Seq<char>) -> nat
    decreases s.len(),
{
    if s.len() == 0 {
        0
    } else {
        digits_value(s.drop_last()) * 10 + ((s.last() as u32) - ('0' as u32)) as nat
    }
}

/// What `str::parse::<u32>` accepts: an optional `+`, then one or more
/// decimal digits whose value fits in 32 bits.
pub open spec fn parsed_u32(s: Seq<char>) -> Option<u32> {
    let d = if s.len() > 0 && s[0] == '+' {
        s.drop_first()
    } else {
        s
    };
    if d.len() > 0 && all_digits(d) && digits_value(d) <= u32::MAX {
        Some(digits_value(d) as u32)
    } else {
        None
    }
}

/// What `str::parse::<i64>` accepts: an optional sign, then one or more
/// decimal digits whose signed value fits in 64 bits.
pub open spec fn parsed_i64(s: Seq<char>) -> Option<i64> {
    let neg = s.len() > 0 && s[0] == '-';
    let d = if s.len() > 0 && (s[0] == '+' || s[0] == '-') {
        s.drop_first()
    } else {
        s
    };
    if d.len() > 0 && all_digits(d) && digits_value(d) <= (if neg { 0x8000_0000_0000_0000nat } else { 0x7fff_ffff_ffff_ffffnat }) {
        Some((if neg { -digits_value(d) } else { digits_value(d) as int }) as i64)
    } else {
        None
    }
}

/// The value of the digits after the sign, when there is at least one, all
/// are digits, and the value is at most `limit`.
pub open spec fn digits_within(d: Seq<char>, limit: u64) -> Option<u64> {
    if d.len() > 0 && all_digits(d) && digits_value(d) <= limit {
        Some(digits_value(d) as u64)
    } else {
        None
    }
}

proof fn lemma_digits_value_grows(s: Seq<char>, k: int)
    requires
        0 <= k <= s.len(),
        forall|i: int| 0 <= i < s.len() ==> is_digit(#[trigger] s[i]),
    ensures
        digits_value(s.subrange(0, k)) <= digits_value(s),
    decreases s.len() - k,
{
    if k < s.len() {
        lemma_digits_value_grows(s, k + 1);
        let pre = s.subrange(0, k + 1);
        assert(pre.drop_last() =~= s.subrange(0, k));
    } else {
        assert(s.subrange(0, k) =~= s);
    }
}

/// Reads the decimal digits of `s` from `start` on, bounded by `limit`.
fn digits_from(s: &str, start: usize, limit: u64) -> (r: Option<u64>)
    requires
        start <= s@.len(),
        9 <= limit <= 0x8000_0000_0000_0000,
    ensures
        r == digits_within(s@.subrange(start as int, s@.len() as int), limit),
{
    let n = s.unicode_len();
    let ghost d = s@.subrange(start as int, n as int);
    if start >= n {
        return None;
    }
    let mut acc: u64 = 0;
    let mut i: usize = start;
    proof {
        assert(d.subrange(0, 0) =~= Seq::<char>::empty());
    }
    while i < n
        invariant
            n == s@.len(),
            start <= i <= n,
            d == s@.subrange(start as int, n as int),
            9 <= limit <= 0x8000_0000_0000_0000,
            acc == digits_value(d.subrange(0, i - start)),
            acc <= limit,
            forall|q: int| 0 <= q < i - start ==> is_digit(#[trigger] d[q]),
        decreases n - i,
    {
        let c = s.get_char(i);
        proof {
            assert(d[i - start] == c);
        }
        if !('0' <= c && c <= '9') {
            proof {
                assert(!is_digit(d[i - start]));
                assert(!all_digits(d));
            }
            return None;
        }
        let dv: u64 = (c as u32 - '0' as u32) as u64;
        proof {
            let pre = d.subrange(0, i - start + 1);
            assert(pre.drop_last() =~= d.subrange(0, i - start));
            assert(pre.last() == c);
        }
        if acc > (limit - dv) / 10 {
            proof {
                let pre = d.subrange(0, i - start + 1);
                assert(acc * 10 + dv > limit) by (nonlinear_arith)
                    requires
                        acc > (limit - dv) / 10,
                        limit >= dv,
                ;
                assert forall|q: int| 0 <= q < i - start + 1 implies is_digit(#[trigger] d[q]) by {
                    if q == i - start {
                        assert(d[q] == c);
                    }
                }
                if all_digits(d) {
                    lemma_digits_value_grows(d, i - start + 1);
                }
            }
            return None;
        }
        proof {
            assert(acc * 10 + dv <= limit) by (nonlinear_arith)
                requires
                    acc <= (limit - dv) / 10,
                    limit >= dv,
            ;
        }
        acc = acc * 10 + dv;
        i = i + 1;
    }
    proof {
        assert(d.subrange(0, n - start) =~= d);
    }
    Some(acc)
}

/// Parses an unsigned 32-bit decimal, as `str::parse::<u32>` does.
pub fn parse_u32(s: &str) -> (r: Option<u32>)
    ensures
        r == parsed_u32(s@),
{
    let n = s.unicode_len();
    let start: usize = if n > 0 && s.get_char(0) == '+' { 1 } else { 0 };
    proof {
        if start == 1 {
            assert(s@.drop_first() =~= s@.subrange(1, n as int));
        } else {
            assert(s@ =~= s@.subrange(0, n as int));
        }
    }
    match digits_from(s, start, 0xffff_ffff) {
        Some(v) => Some(v as u32),
        None => None,
    }
}

/// Parses a signed 64-bit decimal, as `str::parse::<i64>` does.
pub fn parse_i64(s: &str) -> (r: Option<i64>)
    ensures
        r == parsed_i64(s@),
{
    let n = s.unicode_len();
    let neg = n > 0 && s.get_char(0) == '-';
    let start: usize = if n > 0 && (s.get_char(0) == '+' || s.get_char(0) == '-') { 1 } else { 0 };
    proof {
        if start == 1 {
            assert(s@.drop_first() =~= s@.subrange(1, n as int));
        } else {
            assert(s@ =~= s@.subrange(0, n as int));
        }
    }
    let limit: u64 = if neg { 0x8000_0000_0000_0000 } else { 0x7fff_ffff_ffff_ffff };
    match digits_from(s, start, limit) {
        Some(v) => {
            if neg {
                if v == 0x8000_0000_0000_0000 {
                    Some(i64::MIN)
                } else {
                    Some(-(v as i64))
                }
            } else {
                Some(v as i64)
            }
        },
        None => None,
    }
}

/// The state kinds a `selection=` list names, in order; fields that name no
/// kind (after trimming) are dropped.
pub open spec fn named_kinds(fields: Seq<Seq<char>>) -> Seq<PropertyStateKind>
    decreases fields.len(),
{
    if fields.len() == 0 {
        Seq::empty()
    } else {
        let rest = named_kinds(fields.drop_last());
        match kind_named(trimmed(fields.last())) {
            Some(k) => rest.push(k),
            None => rest,
        }
    }
}

/// The state filter a shared link restores: the kinds it names, or our
/// purchased holdings when it names none.
pub open spec fn selection_filter(s: Seq<char>) -> Seq<PropertyStateKind> {
    let ks = named_kinds(split_on(s, ','));
    if ks.len() == 0 {
        seq![PropertyStateKind::Purchased]
    } else {
        ks
    }
}

fn kind_of_field(field: &Vec<char>) -> (r: Option<PropertyStateKind>)
    ensures
        r == kind_named(trimmed(field@)),
{
    let mut text = String::new();
    let mut i: usize = 0;
    while i < field.len()
        invariant
            i <= field@.len(),
            text@ == field@.subrange(0, i as int),
        decreases field@.len() - i,
    {
        crate::text::push_char(&mut text, field[i]);
        proof {
            assert(field@.subrange(0, i + 1) =~= field@.subrange(0, i as int).push(field@[i as int]));
        }
        i = i + 1;
    }
    proof {
        assert(field@.subrange(0, field@.len() as int) =~= field@);
    }
    PropertyStateKind::parse(trim(text.as_str()))
}

/// Reads the state filter out of a `selection=` query value.
pub fn parse_selection(s: &str) -> (r: Vec<PropertyStateKind>)
    ensures
        r@ == selection_filter(s@),
{
    let n = s.unicode_len();
    let mut kinds: Vec<PropertyStateKind> = Vec::new();
    let mut field: Vec<char> = Vec::new();
    let mut i: usize = 0;
    proof {
        assert(s@.subrange(0, 0) =~= Seq::<char>::empty());
        lemma_split_on_nonempty(s@.subrange(0, 0), ',');
    }
    while i < n
        invariant
            n == s@.len(),
            i <= n,
            split_on(s@.subrange(0, i as int), ',').len() >= 1,
            field@ == split_on(s@.subrange(0, i as int), ',').last(),
            kinds@ == named_kinds(split_on(s@.subrange(0, i as int), ',').drop_last()),
        decreases n - i,
    {
        let c = s.get_char(i);
        let ghost before = split_on(s@.subrange(0, i as int), ',');
        proof {
            let pre = s@.subrange(0, i + 1);
            assert(pre.drop_last() =~= s@.subrange(0, i as int));
            assert(pre.last() == c);
            lemma_split_on_nonempty(pre, ',');
        }
        if c == ',' {
            let k = kind_of_field(&field);
            proof {
                let after = before.push(Seq::<char>::empty());
                assert(after.drop_last() =~= before);
                assert(before.drop_last().push(before.last()) =~= before);
                assert(before == before.drop_last().push(field@));
            }
            match k {
                Some(k) => kinds.push(k),
                None => {},
            }
            field = Vec::new();
        } else {
            field.push(c);
            proof {
                let after = before.update(before.len() - 1, before.last().push(c));
                assert(after.drop_last() =~= before.drop_last());
            }
        }
        i = i + 1;
    }
    proof {
        assert(s@.subrange(0, n as int) =~= s@);
    }
    let ghost fields = split_on(s@, ',');
    let k = kind_of_field(&field);
    match k {
        Some(k) => kinds.push(k),
        None => {},
    }
    proof {
        assert(fields.drop_last().push(fields.last()) =~= fields);
    }
    if kinds.len() == 0 {
        let mut v = Vec::new();
        v.push(PropertyStateKind::Purchased);
        proof {
            assert(v@ =~= seq![PropertyStateKind::Purchased]);
        }
        return v;
    }
    kinds
}

/// The `selection=` value a filter is mirrored into: the kinds' names,
/// comma-separated, in order.
pub open spec fn join_names(ks: Seq<PropertyStateKind>) -> Seq<char>
    decreases ks.len(),
{
    if ks.len() == 0 {
        Seq::empty()
    } else if ks.len() == 1 {
        kind_name(ks[0])
    } else {
        join_names(ks.drop_last()) + ","@ + kind_name(ks.last())
    }
}

/// Mirrors the state filter into the `selection=` query value, so a shared
/// link restores the set.
pub fn selection_csv(filter: &Vec<PropertyStateKind>) -> (r: String)
    ensures
        r@ == join_names(filter@),
{
    let mut out = String::new();
    let mut i: usize = 0;
    while i < filter.len()
        invariant
            i <= filter@.len(),
            out@ == join_names(filter@.subrange(0, i as int)),
        decreases filter@.len() - i,
    {
        let ghost pre = filter@.subrange(0, i + 1);
        proof {
            assert(pre.drop_last() =~= filter@.subrange(0, i as int));
        }
        if i > 0 {
            out = out.concat(",");
        }
        out = out.concat(filter[i].as_str());
        proof {
            if i == 0 {
                assert(out@ =~= kind_name(pre[0]));
            } else {
                assert(out@ =~= join_names(pre.drop_last()) + ","@ + kind_name(pre.last()));
            }
        }
        i = i + 1;
    }
    proof {
        assert(filter@.subrange(0, filter@.len() as int) =~= filter@);
    }
    out
}

proof fn lemma_split_append(s: Seq<char>, t: Seq<char>, sep: char)
    requires
        forall|i: int| 0 <= i < t.len() ==> t[i] != sep,
    ensures
        split_on(s + t, sep) == split_on(s, sep).update(
            split_on(s, sep).len() - 1,
            split_on(s, sep).last() + t,
        ),
    decreases t.len(),
{
    lemma_split_on_nonempty(s, sep);
    if t.len() == 0 {
        assert(s + t =~= s);
        assert(split_on(s, sep).last() + t =~= split_on(s, sep).last());
        assert(split_on(s, sep).update(split_on(s, sep).len() - 1, split_on(s, sep).last()) =~= split_on(s, sep));
    } else {
        lemma_split_append(s, t.drop_last(), sep);
        let whole = s + t;
        assert(whole.drop_last() =~= s + t.drop_last());
        assert(whole.last() == t.last());
        let p = split_on(s, sep);
        let p2 = split_on(s + t.drop_last(), sep);
        assert(p2 == p.update(p.len() - 1, p.last() + t.drop_last()));
        assert(p2.len() == p.len());
        assert(p2.last() == p.last() + t.drop_last());
        assert(split_on(whole, sep) == p2.update(p2.len() - 1, p2.last().push(t.last())));
        assert(p.last() + t.drop_last() + seq![t.last()] =~= p.last() + t);
        assert(p2.last().push(t.last()) =~= p.last() + t);
        assert(p2.update(p2.len() - 1, p2.last().push(t.last())) =~= p.update(p.len() - 1, p.last() + t));
    }
}

proof fn lemma_kind_name_plain(k: PropertyStateKind)
    ensures
        forall|i: int| 0 <= i < kind_name(k).len() ==> kind_name(k)[i] != ',',
        kind_name(k).len() > 0,
        trimmed(kind_name(k)) == kind_name(k),
        kind_named(kind_name(k)) == Some(k),
{
    reveal_strlit("Purchased");
    reveal_strlit("Interesting");
    reveal_strlit("Purchasing");
    let n = kind_name(k);
    assert(!crate::text::is_ws(n[0]));
    assert(!crate::text::is_ws(n.last()));
    assert(crate::text::trim_start(n) == n);
    assert(crate::text::trim_end(n) == n);
    assert("Purchased"@[3] == 'c' && "Purchasing"@[3] == 'c' && "Interesting"@[0] == 'I');
    assert("Purchased"@.len() != "Purchasing"@.len());
}

proof fn lemma_split_join(ks: Seq<PropertyStateKind>)
    requires
        ks.len() > 0,
    ensures
        split_on(join_names(ks), ',') == ks.map_values(|k: PropertyStateKind| kind_name(k)),
    decreases ks.len(),
{
    lemma_kind_name_plain(ks.last());
    if ks.len() == 1 {
        lemma_split_append(Seq::empty(), kind_name(ks[0]), ',');
        assert(Seq::<char>::empty() + kind_name(ks[0]) =~= kind_name(ks[0]));
        assert(split_on(Seq::<char>::empty(), ',') =~= seq![Seq::<char>::empty()]);
        assert(split_on(join_names(ks), ',') =~= ks.map_values(|k: PropertyStateKind| kind_name(k)));
    } else {
        let head = join_names(ks.drop_last());
        lemma_split_join(ks.drop_last());
        let with_comma = head + ","@;
        reveal_strlit(",");
        assert(with_comma.drop_last() =~= head);
        assert(with_comma.last() == ',');
        lemma_split_append(with_comma, kind_name(ks.last()), ',');
        assert(join_names(ks) =~= with_comma + kind_name(ks.last()));
        let prev = split_on(with_comma, ',');
        assert(prev == split_on(head, ',').push(Seq::<char>::empty()));
        assert(Seq::<char>::empty() + kind_name(ks.last()) =~= kind_name(ks.last()));
        assert(ks.drop_last().map_values(|k: PropertyStateKind| kind_name(k)).push(kind_name(ks.last()))
            =~= ks.map_values(|k: PropertyStateKind| kind_name(k)));
        assert(split_on(join_names(ks), ',') =~= ks.map_values(|k: PropertyStateKind| kind_name(k)));
    }
}

proof fn lemma_named_kinds_of_names(ks: Seq<PropertyStateKind>)
    ensures
        named_kinds(ks.map_values(|k: PropertyStateKind| kind_name(k))) == ks,
    decreases ks.len(),
{
    if ks.len() > 0 {
        let names = ks.map_values(|k: PropertyStateKind| kind_name(k));
        assert(names.drop_last() =~= ks.drop_last().map_values(|k: PropertyStateKind| kind_name(k)));
        lemma_named_kinds_of_names(ks.drop_last());
        lemma_kind_name_plain(ks.last());
        assert(ks.drop_last().push(ks.last()) =~= ks);
    }
}

/// A shared link restores the filter it was made from: reading back the
/// `selection=` value a non-empty filter is mirrored into gives that filter.
pub proof fn lemma_shared_link_restores(filter: Seq<PropertyStateKind>)
    requires
        filter.len() > 0,
    ensures
        selection_filter(join_names(filter)) == filter,
{
    lemma_split_join(filter);
    lemma_named_kinds_of_names(filter);
}

/// Deep-link state read from the URL once at startup.
pub struct DeepLink {
    pub building: Option<BuildingId>,
    pub appt: Option<u32>,
    pub filter: Vec<PropertyStateKind>,
}

impl DeepLink {
    /// Reads the `building`, `appt` and `selection` query values. The URL is
    /// user-editable: a value that names nothing is dropped, and a selection
    /// naming no state falls back to the default filter.
    pub fn from_query(building: &str, appt: &str, selection: &str) -> (r: DeepLink)
        ensures
            r.building == match parsed_uuid(building@) {
                Ok(v) => Some(BuildingId { raw: v }),
                Err(_) => None,
            },
            r.appt == parsed_u32(appt@),
            r.filter@ == selection_filter(selection@),
    {
        let b = match parse_building_id(building) {
            Ok(id) => Some(id),
            Err(_) => None,
        };
        DeepLink { building: b, appt: parse_u32(appt), filter: parse_selection(selection) }
    }
}

} // verus!
