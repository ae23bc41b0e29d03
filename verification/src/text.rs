//! Small helpers on text, stated over sequences of characters.
//!
//! The lines of the protocol are short, so a string is read character by
//! character through its positions.
use vstd::prelude::*;
use vstd::string::*;

verus! {

/// The views of a sequence of strings, one for one.
pub open spec fn texts(v: Seq<String>) -> Seq<Seq<char>> {
    Seq::new(v.len(), |i: int| v[i]@)
}

/// `s` with every occurrence of `x` taken out, the rest in order.
pub open spec fn without(s: Seq<Seq<char>>, x: Seq<char>) -> Seq<Seq<char>>
    decreases s.len(),
{
    if s.len() == 0 {
        s
    } else if s.last() == x {
        without(s.drop_last(), x)
    } else {
        without(s.drop_last(), x).push(s.last())
    }
}

/// What `without` keeps: exactly the items of `s` other than `x`.
pub proof fn lemma_without_contains(s: Seq<Seq<char>>, x: Seq<char>, y: Seq<char>)
    ensures
        without(s, x).contains(y) <==> (s.contains(y) && y != x),
        without(s, x).len() <= s.len(),
    decreases s.len(),
{
    if s.len() == 0 {
    } else {
        let head = s.drop_last();
        lemma_without_contains(head, x, y);
        assert(s =~= head.push(s.last()));
        if without(s, x).contains(y) {
            if s.last() != x && y == s.last() {
                assert(s[s.len() - 1] == y);
            } else {
                let k = choose|k: int| 0 <= k < without(s, x).len() && without(s, x)[k] == y;
                if s.last() != x {
                    assert(k < without(head, x).len());
                    assert(without(head, x)[k] == y);
                }
                assert(head.contains(y));
                let j = choose|j: int| 0 <= j < head.len() && head[j] == y;
                assert(s[j] == y);
            }
        }
        if s.contains(y) && y != x {
            let j = choose|j: int| 0 <= j < s.len() && s[j] == y;
            if j == s.len() - 1 {
                let w = without(s, x);
                assert(w[w.len() - 1] == y);
            } else {
                assert(head[j] == y);
                assert(head.contains(y));
                let k = choose|k: int| 0 <= k < without(head, x).len() && without(head, x)[k] == y;
                assert(without(s, x)[k] == y);
            }
        }
    }
}

/// Taking `x` out of a sequence that does not hold it changes nothing.
pub proof fn lemma_without_absent(s: Seq<Seq<char>>, x: Seq<char>)
    requires
        !s.contains(x),
    ensures
        without(s, x) == s,
    decreases s.len(),
{
    if s.len() > 0 {
        let head = s.drop_last();
        assert(s[s.len() - 1] != x);
        assert forall|j: int| 0 <= j < head.len() implies head[j] != x by {
            assert(s[j] == head[j]);
        }
        lemma_without_absent(head, x);
        assert(s =~= head.push(s.last()));
    }
}

/// Taking out an item that a sequence holds once makes it one shorter.
pub proof fn lemma_without_one(s: Seq<Seq<char>>, x: Seq<char>)
    requires
        s.no_duplicates(),
        s.contains(x),
    ensures
        without(s, x).len() == s.len() - 1,
    decreases s.len(),
{
    let head = s.drop_last();
    if s.last() == x {
        if head.contains(x) {
            let j = choose|j: int| 0 <= j < head.len() && head[j] == x;
            assert(s[j] == s[s.len() - 1]);
        }
        lemma_without_absent(head, x);
    } else {
        let j = choose|j: int| 0 <= j < s.len() && s[j] == x;
        assert(head[j] == x);
        lemma_without_one(head, x);
    }
}

/// Taking items out keeps the rest free of repetitions.
pub proof fn lemma_without_no_duplicates(s: Seq<Seq<char>>, x: Seq<char>)
    requires
        s.no_duplicates(),
    ensures
        without(s, x).no_duplicates(),
    decreases s.len(),
{
    if s.len() > 0 {
        let head = s.drop_last();
        lemma_without_no_duplicates(head, x);
        if s.last() != x {
            lemma_without_contains(head, x, s.last());
            if head.contains(s.last()) {
                let j = choose|j: int| 0 <= j < head.len() && head[j] == s.last();
                assert(s[j] == s[s.len() - 1]);
            }
        }
    }
}

/// The list `items` with `x` as its newest entry, unless it is listed already.
pub open spec fn with_item(items: Seq<Seq<char>>, x: Seq<char>) -> Seq<Seq<char>> {
    if items.contains(x) {
        items
    } else {
        items.push(x)
    }
}

/// Adding an entry keeps a list free of repetitions, and the list then holds
/// what it held before and the new entry.
pub proof fn lemma_with_item(items: Seq<Seq<char>>, x: Seq<char>)
    requires
        items.no_duplicates(),
    ensures
        with_item(items, x).no_duplicates(),
        forall|y: Seq<char>| #[trigger] with_item(items, x).contains(y) <==> (items.contains(y) || y == x),
{
    let next = with_item(items, x);
    if !items.contains(x) {
        assert forall|a: int, b: int| 0 <= a < next.len() && 0 <= b < next.len() && a != b implies next[a]
            != next[b] by {
            if a < items.len() {
                assert(items[a] == next[a]);
            }
            if b < items.len() {
                assert(items[b] == next[b]);
            }
        }
    }
    assert forall|y: Seq<char>| #[trigger] next.contains(y) <==> (items.contains(y) || y == x) by {
        if next.contains(y) {
            let k = choose|k: int| 0 <= k < next.len() && next[k] == y;
            if k < items.len() {
                assert(items[k] == y);
            }
        }
        if items.contains(y) {
            let k = choose|k: int| 0 <= k < items.len() && items[k] == y;
            assert(next[k] == y);
        }
        if y == x && !items.contains(x) {
            assert(next[items.len() as int] == x);
        }
    }
}

/// `s` with every `old` turned into `new`, place by place.
pub open spec fn replaced(s: Seq<Seq<char>>, old: Seq<char>, new: Seq<char>) -> Seq<Seq<char>> {
    Seq::new(s.len(), |k: int| if s[k] == old { new } else { s[k] })
}

/// `s` after `old` took the name `new`: where `s` holds `old`, `new` stands
/// in its place, the order kept, and an entry `new` that `s` held before is
/// gone, so that no name stands twice. Where `s` does not hold `old`, it is
/// as it was.
pub open spec fn renamed(s: Seq<Seq<char>>, old: Seq<char>, new: Seq<char>) -> Seq<Seq<char>> {
    if s.contains(old) {
        replaced(without(s, new), old, new)
    } else {
        s
    }
}

/// What a renamed sequence holds: `new` if it held `old` or `new`, `old` no
/// more, unless nothing was renamed, and every other item as before. It
/// stays free of repetitions, and where it did not hold `new` it is replaced
/// place by place.
pub proof fn lemma_renamed(s: Seq<Seq<char>>, old: Seq<char>, new: Seq<char>, y: Seq<char>)
    requires
        s.no_duplicates(),
        old != new,
    ensures
        renamed(s, old, new).no_duplicates(),
        renamed(s, old, new).contains(y) <==> (if y == new {
            s.contains(old) || s.contains(new)
        } else {
            y != old && s.contains(y)
        }),
        !s.contains(new) ==> renamed(s, old, new) == replaced(s, old, new),
{
    let w = without(s, new);
    let r = renamed(s, old, new);
    lemma_without_no_duplicates(s, new);
    lemma_without_contains(s, new, new);
    lemma_without_contains(s, new, old);
    lemma_without_contains(s, new, y);
    if !s.contains(new) {
        lemma_without_absent(s, new);
    }
    if s.contains(old) {
        assert forall|a: int, b: int| 0 <= a < r.len() && 0 <= b < r.len() && a != b implies r[a]
            != r[b] by {
            assert(w[a] != w[b]);
            assert(w.contains(w[a]));
            assert(w.contains(w[b]));
        }
        if r.contains(y) {
            let k = choose|k: int| 0 <= k < r.len() && r[k] == y;
            assert(w.contains(w[k]));
        }
        if y == new {
            let k = choose|k: int| 0 <= k < w.len() && w[k] == old;
            assert(r[k] == new);
        }
        if y != new && y != old && s.contains(y) {
            let k = choose|k: int| 0 <= k < w.len() && w[k] == y;
            assert(r[k] == y);
        }
    } else {
        assert(replaced(s, old, new) =~= s) by {
            assert forall|k: int| 0 <= k < s.len() implies s[k] != old by {
                assert(s.contains(s[k]));
            }
        }
    }
}

/// Whether two string slices hold the same characters.
pub fn same_text(a: &str, b: &str) -> (r: bool)
    ensures
        r == (a@ == b@),
{
    let x = a.to_owned();
    let y = b.to_owned();
    x == y
}

/// Whether `items` holds a string equal to `x`.
pub fn holds_text(items: &Vec<String>, x: &String) -> (r: bool)
    ensures
        r == texts(items@).contains(x@),
{
    let mut i: usize = 0;
    while i < items.len()
        invariant
            i <= items.len(),
            forall|j: int| 0 <= j < i ==> texts(items@)[j] != x@,
        decreases items.len() - i,
    {
        if items[i] == *x {
            assert(texts(items@)[i as int] == x@);
            return true;
        }
        i += 1;
    }
    false
}

/// A copy of `items` without the strings equal to `x`.
pub fn drop_text(items: &Vec<String>, x: &String) -> (out: Vec<String>)
    ensures
        texts(out@) == without(texts(items@), x@),
{
    let mut out: Vec<String> = Vec::new();
    let mut i: usize = 0;
    assert(texts(items@).take(0) =~= Seq::<Seq<char>>::empty());
    while i < items.len()
        invariant
            i <= items.len(),
            texts(out@) == without(texts(items@).take(i as int), x@),
        decreases items.len() - i,
    {
        let ghost before = texts(items@).take(i as int);
        let ghost after = texts(items@).take(i + 1);
        assert(after.drop_last() =~= before);
        assert(after.last() == items@[i as int]@);
        if !(items[i] == *x) {
            let ghost prev = texts(out@);
            out.push(items[i].clone());
            assert(texts(out@) =~= prev.push(items@[i as int]@));
        }
        i += 1;
    }
    assert(texts(items@).take(items.len() as int) =~= texts(items@));
    out
}

/// A copy of `items` in which `old` has taken the name `new`.
pub fn rename_text(items: &Vec<String>, old: &String, new: &String) -> (out: Vec<String>)
    ensures
        texts(out@) == renamed(texts(items@), old@, new@),
{
    if !holds_text(items, old) {
        proof {
            lemma_without_absent(texts(items@), old@);
        }
        return drop_text(items, old);
    }
    let kept = drop_text(items, new);
    let mut out: Vec<String> = Vec::new();
    let mut i: usize = 0;
    while i < kept.len()
        invariant
            i <= kept.len(),
            out@.len() == i,
            forall|k: int| 0 <= k < i ==> #[trigger] texts(out@)[k] == replaced(
                texts(kept@),
                old@,
                new@,
            )[k],
        decreases kept.len() - i,
    {
        let ghost prev = texts(out@);
        if kept[i] == *old {
            out.push(new.clone());
        } else {
            out.push(kept[i].clone());
        }
        assert forall|k: int| 0 <= k < i implies #[trigger] texts(out@)[k] == prev[k] by {}
        i += 1;
    }
    assert(texts(out@) =~= replaced(texts(kept@), old@, new@));
    out
}

/// Whether `s` begins with `prefix`.
pub open spec fn has_prefix(s: Seq<char>, prefix: Seq<char>) -> bool {
    prefix.len() <= s.len() && s.subrange(0, prefix.len() as int) == prefix
}

/// Whether `i` is where `c` first stands in `s`, or the length of `s` where
/// `c` does not stand in it.
pub open spec fn is_first_at(s: Seq<char>, c: char, i: int) -> bool {
    &&& 0 <= i <= s.len()
    &&& i < s.len() ==> s[i] == c
    &&& forall|j: int| 0 <= j < i ==> s[j] != c
}

/// Where `c` first stands in `s`; the length of `s` where it does not.
pub open spec fn first_index(s: Seq<char>, c: char) -> int {
    choose|i: int| is_first_at(s, c, i)
}

/// There is exactly one first place.
pub proof fn lemma_first_index(s: Seq<char>, c: char, i: int)
    requires
        is_first_at(s, c, i),
    ensures
        first_index(s, c) == i,
{
    let k = first_index(s, c);
    assert(is_first_at(s, c, k));
    if k < i {
        assert(s[k] != c);
    }
    if i < k {
        assert(s[i] != c);
    }
}

/// The number that the decimal digits `s` write.
pub open spec fn decimal_value(s: Seq<char>) -> nat
    decreases s.len(),
{
    if s.len() == 0 {
        0
    } else {
        decimal_value(s.drop_last()) * 10 + ((s.last() as u32 - '0' as u32) as nat)
    }
}

/// Whether `s` is made of ASCII decimal digits only.
pub open spec fn all_digits(s: Seq<char>) -> bool {
    forall|i: int| 0 <= i < s.len() ==> '0' <= #[trigger] s[i] && s[i] <= '9'
}

/// `s` without a leading `+`.
pub open spec fn unsigned_part(s: Seq<char>) -> Seq<char> {
    if s.len() > 0 && s[0] == '+' {
        s.subrange(1, s.len() as int)
    } else {
        s
    }
}

/// Whether `s` writes a number that fits in 64 bits: decimal digits, at least
/// one, after an optional `+`.
pub open spec fn is_u64_text(s: Seq<char>) -> bool {
    let d = unsigned_part(s);
    d.len() > 0 && all_digits(d) && decimal_value(d) <= u64::MAX
}

/// A longer run of digits writes no smaller number than its beginning.
pub proof fn lemma_decimal_value_grows(s: Seq<char>, k: int)
    requires
        0 <= k <= s.len(),
        all_digits(s),
    ensures
        decimal_value(s.take(k)) <= decimal_value(s),
    decreases s.len() - k,
{
    if k == s.len() {
        assert(s.take(k) =~= s);
    } else {
        lemma_decimal_value_grows(s, k + 1);
        assert(s.take(k + 1).drop_last() =~= s.take(k));
    }
}

/// Whether `s` begins with `prefix`.
pub fn starts_with(s: &str, prefix: &str) -> (r: bool)
    ensures
        r == has_prefix(s@, prefix@),
{
    let n = prefix.unicode_len();
    if s.unicode_len() < n {
        return false;
    }
    same_text(s.substring_char(0, n), prefix)
}

/// Where `c` first stands in `s` at or after `from`; the length of `s` where
/// it does not.
pub fn find_char(s: &str, c: char, from: usize) -> (i: usize)
    requires
        from <= s@.len(),
    ensures
        from <= i <= s@.len(),
        i < s@.len() ==> s@[i as int] == c,
        forall|j: int| from <= j < i ==> s@[j] != c,
{
    let n = s.unicode_len();
    let mut i: usize = from;
    while i < n
        invariant
            from <= i <= n,
            n == s@.len(),
            forall|j: int| from <= j < i ==> s@[j] != c,
        decreases n - i,
    {
        if s.get_char(i) == c {
            return i;
        }
        i += 1;
    }
    n
}

/// Reads `s` as a decimal number of 64 bits, with an optional `+` in front.
pub fn parse_u64(s: &str) -> (r: Option<u64>)
    ensures
        r is Some == is_u64_text(s@),
        r is Some ==> r->0 == decimal_value(unsigned_part(s@)),
{
    let n = s.unicode_len();
    let start: usize = if n > 0 && s.get_char(0) == '+' {
        1
    } else {
        0
    };
    if start == n {
        return None;
    }
    let digits = s.substring_char(start, n);
    let m = n - start;
    assert(digits@ =~= unsigned_part(s@));
    let mut acc: u64 = 0;
    let mut i: usize = 0;
    assert(digits@.take(0) =~= Seq::<char>::empty());
    while i < m
        invariant
            i <= m,
            m == digits@.len(),
            digits@ == unsigned_part(s@),
            all_digits(digits@.take(i as int)),
            acc == decimal_value(digits@.take(i as int)),
        decreases m - i,
    {
        let c = digits.get_char(i);
        let ghost before = digits@.take(i as int);
        let ghost after = digits@.take(i + 1);
        assert(after.drop_last() =~= before);
        assert(after.last() == c);
        if !('0' <= c && c <= '9') {
            assert(!all_digits(digits@)) by {
                assert(digits@[i as int] == c);
            }
            return None;
        }
        assert(all_digits(after)) by {
            assert forall|j: int| 0 <= j < after.len() implies '0' <= #[trigger] after[j]
                && after[j] <= '9' by {
                if j < i {
                    assert(before[j] == after[j]);
                }
            }
        }
        let d: u64 = (c as u32 - '0' as u32) as u64;
        if acc > (u64::MAX - d) / 10 {
            proof {
                assert(acc * 10 + d > u64::MAX) by (nonlinear_arith)
                    requires
                        acc > (u64::MAX - d) / 10,
                        0 <= d <= 9,
                ;
                assert(decimal_value(after) == acc * 10 + d);
                if all_digits(digits@) {
                    lemma_decimal_value_grows(digits@, i + 1);
                }
            }
            return None;
        }
        acc = acc * 10 + d;
        i += 1;
    }
    assert(digits@.take(m as int) =~= digits@);
    Some(acc)
}

} // verus!
