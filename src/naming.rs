use vstd::prelude::*;

verus! {

/// The character of the decimal digit `d`.
pub open spec fn digit_char(d: nat) -> char {
    if d == 0 {
        '0'
    } else if d == 1 {
        '1'
    } else if d == 2 {
        '2'
    } else if d == 3 {
        '3'
    } else if d == 4 {
        '4'
    } else if d == 5 {
        '5'
    } else if d == 6 {
        '6'
    } else if d == 7 {
        '7'
    } else if d == 8 {
        '8'
    } else {
        '9'
    }
}

/// The value of a decimal digit character.
pub open spec fn digit_value(c: char) -> nat {
    if c == '1' {
        1
    } else if c == '2' {
        2
    } else if c == '3' {
        3
    } else if c == '4' {
        4
    } else if c == '5' {
        5
    } else if c == '6' {
        6
    } else if c == '7' {
        7
    } else if c == '8' {
        8
    } else if c == '9' {
        9
    } else {
        0
    }
}

/// The decimal spelling of `n`, without leading zeros.
pub open spec fn decimal(n: nat) -> Seq<char>
    decreases n,
{
    if n < 10 {
        seq![digit_char(n)]
    } else {
        decimal(n / 10).push(digit_char(n % 10))
    }
}

/// The number that a string of decimal digits spells.
pub open spec fn decimal_value(s: Seq<char>) -> nat
    decreases s.len(),
{
    if s.len() == 0 {
        0
    } else {
        decimal_value(s.drop_last()) * 10 + digit_value(s.last())
    }
}

/// Reading back the decimal spelling of `n` gives `n`.
pub proof fn lemma_decimal_value(n: nat)
    ensures
        decimal_value(decimal(n)) == n,
    decreases n,
{
    let s = decimal(n);
    if n >= 10 {
        lemma_decimal_value(n / 10);
        assert(s.drop_last() =~= decimal(n / 10));
        lemma_digit_value(n % 10);
        assert(s.last() == digit_char(n % 10));
        assert(decimal_value(s) == decimal_value(decimal(n / 10)) * 10 + n % 10);
        assert(n == (n / 10) * 10 + n % 10);
    } else {
        assert(s.drop_last() =~= Seq::<char>::empty());
        assert(decimal_value(s.drop_last()) == 0);
        assert(s.last() == digit_char(n));
        lemma_digit_value(n);
    }
}

/// A digit's character reads back as the digit.
pub proof fn lemma_digit_value(d: nat)
    requires
        d < 10,
    ensures
        digit_value(digit_char(d)) == d,
{
}

/// Distinct numbers have distinct decimal spellings.
pub proof fn lemma_decimal_injective(a: nat, b: nat)
    ensures
        decimal(a) == decimal(b) ==> a == b,
{
    lemma_decimal_value(a);
    lemma_decimal_value(b);
}

/// The one-character string of the digit `d`.
fn digit_str(d: u64) -> (r: &'static str)
    requires
        d < 10,
    ensures
        r@ == seq![digit_char(d as nat)],
{
    proof {
        reveal_strlit("0");
        reveal_strlit("1");
        reveal_strlit("2");
        reveal_strlit("3");
        reveal_strlit("4");
        reveal_strlit("5");
        reveal_strlit("6");
        reveal_strlit("7");
        reveal_strlit("8");
        reveal_strlit("9");
    }
    match d {
        0 => "0",
        1 => "1",
        2 => "2",
        3 => "3",
        4 => "4",
        5 => "5",
        6 => "6",
        7 => "7",
        8 => "8",
        _ => "9",
    }
}

/// Writes `n` in decimal.
pub fn decimal_string(n: u64) -> (r: String)
    ensures
        r@ == decimal(n as nat),
    decreases n,
{
    if n < 10 {
        String::from_str(digit_str(n))
    } else {
        let mut s = decimal_string(n / 10);
        s.append(digit_str(n % 10));
        s
    }
}

/// Position of the last '.' in `s`, or -1 where there is none.
pub open spec fn last_dot(s: Seq<char>) -> int
    decreases s.len(),
{
    if s.len() == 0 {
        -1
    } else if s.last() == '.' {
        s.len() - 1
    } else {
        last_dot(s.drop_last())
    }
}

/// Where `s` has a '.', the last one stands at `last_dot(s)`.
pub proof fn lemma_last_dot(s: Seq<char>)
    ensures
        -1 <= last_dot(s) < s.len(),
        last_dot(s) >= 0 ==> s[last_dot(s)] == '.',
        forall|j: int| last_dot(s) < j < s.len() ==> s[j] != '.',
    decreases s.len(),
{
    if s.len() > 0 && s.last() != '.' {
        let t = s.drop_last();
        lemma_last_dot(t);
        assert forall|j: int| last_dot(s) < j < s.len() implies s[j] != '.' by {
            if j < t.len() {
                assert(s[j] == t[j]);
            }
        }
    }
}

/// The stem of a file name: what stands before its last '.', or the whole
/// name where it has no '.' but possibly a leading one.
pub open spec fn stem_of(name: Seq<char>) -> Seq<char> {
    if last_dot(name) > 0 {
        name.take(last_dot(name))
    } else {
        name
    }
}

/// The extension of a file name: what follows the '.' that ends its stem.
pub open spec fn extension_of(name: Seq<char>) -> Option<Seq<char>> {
    if last_dot(name) > 0 {
        Some(name.skip(last_dot(name) + 1))
    } else {
        None
    }
}

/// The marker placed between a stem and a copy number.
pub open spec fn copy_marker() -> Seq<char> {
    seq!['_', 'c', 'o', 'p', 'y', '_']
}

/// What follows the copy number: the extension with its dot, if it is not empty.
pub open spec fn copy_suffix(name: Seq<char>) -> Seq<char> {
    match extension_of(name) {
        Some(e) => if e.len() > 0 {
            seq!['.'] + e
        } else {
            Seq::empty()
        },
        None => Seq::empty(),
    }
}

/// The `n`-th alternative to `name`: `{stem}_copy_{n}` or `{stem}_copy_{n}.{ext}`.
pub open spec fn copy_candidate(name: Seq<char>, n: nat) -> Seq<char> {
    stem_of(name) + copy_marker() + decimal(n) + copy_suffix(name)
}

/// The views of a list of names.
pub open spec fn name_views(names: Seq<String>) -> Seq<Seq<char>> {
    names.map_values(|t: String| t@)
}

/// `n` is the first copy number whose candidate is not taken.
pub open spec fn is_first_free(name: Seq<char>, taken: Seq<Seq<char>>, n: nat) -> bool {
    &&& n >= 1
    &&& !taken.contains(copy_candidate(name, n))
    &&& forall|m: nat| 1 <= m < n ==> taken.contains(#[trigger] copy_candidate(name, m))
}

/// The name that a collision-safe copy of `name` takes among `taken`: the name
/// itself where it is free, else the first free candidate.
pub open spec fn is_copy_name(name: Seq<char>, taken: Seq<Seq<char>>, r: Seq<char>) -> bool {
    if taken.contains(name) {
        exists|n: nat| is_first_free(name, taken, n) && r == copy_candidate(name, n)
    } else {
        r == name
    }
}

/// Distinct copy numbers give distinct candidates.
pub proof fn lemma_candidate_injective(name: Seq<char>, a: nat, b: nat)
    requires
        copy_candidate(name, a) == copy_candidate(name, b),
    ensures
        a == b,
{
    let p = stem_of(name) + copy_marker();
    let q = copy_suffix(name);
    let ca = p + decimal(a) + q;
    let cb = p + decimal(b) + q;
    assert(copy_candidate(name, a) =~= ca);
    assert(copy_candidate(name, b) =~= cb);
    assert(decimal(a).len() == decimal(b).len());
    assert(ca.subrange(p.len() as int, p.len() + decimal(a).len() as int) =~= decimal(a));
    assert(cb.subrange(p.len() as int, p.len() + decimal(b).len() as int) =~= decimal(b));
    lemma_decimal_injective(a, b);
}

/// A candidate is longer than the name it stands in for.
pub proof fn lemma_candidate_longer(name: Seq<char>, n: nat)
    ensures
        copy_candidate(name, n).len() > name.len(),
{
    lemma_last_dot(name);
}

/// Where `name` and its first `k` candidates are all taken, fewer than `k`
/// would not fit: `k` is less than the number of taken names.
pub proof fn lemma_taken_candidates_bound(name: Seq<char>, taken: Seq<Seq<char>>, k: nat)
    requires
        taken.contains(name),
        forall|m: nat| 1 <= m <= k ==> taken.contains(#[trigger] copy_candidate(name, m)),
    ensures
        k < taken.len(),
{
    let s = vstd::set_lib::set_int_range(1, k as int + 1);
    let f = |m: int| copy_candidate(name, m as nat);
    vstd::set_lib::lemma_int_range(1, k as int + 1);
    assert(vstd::relations::injective_on(f, s)) by {
        assert forall|x: int, y: int| s.contains(x) && s.contains(y) && #[trigger] f(x) == #[trigger] f(y)
            implies x == y by {
            lemma_candidate_injective(name, x as nat, y as nat);
        }
    }
    vstd::set_lib::lemma_map_size(s, s.map(f), f);
    assert(s.map(f).subset_of(taken.to_set())) by {
        assert forall|c: Seq<char>| s.map(f).contains(c) implies taken.to_set().contains(c) by {
            let m = choose|m: int| s.contains(m) && f(m) == c;
            assert(taken.contains(copy_candidate(name, m as nat)));
        }
    }
    assert(!s.map(f).contains(name)) by {
        if s.map(f).contains(name) {
            let m = choose|m: int| s.contains(m) && f(m) == name;
            lemma_candidate_longer(name, m as nat);
        }
    }
    assert(taken.to_set().contains(name));
    vstd::seq_lib::seq_to_set_is_finite(taken);
    vstd::set_lib::lemma_len_subset(s.map(f).insert(name), taken.to_set());
    taken.lemma_cardinality_of_set();
}

/// Whether `names` holds a name equal to `s`.
pub fn names_contain(names: &Vec<String>, s: &String) -> (r: bool)
    ensures
        r == name_views(names@).contains(s@),
{
    let mut i: usize = 0;
    while i < names.len()
        invariant
            i <= names.len(),
            forall|j: int| 0 <= j < i ==> names@[j]@ != s@,
        decreases names.len() - i,
    {
        if names[i] == *s {
            assert(name_views(names@)[i as int] == s@);
            return true;
        }
        i = i + 1;
    }
    proof {
        if name_views(names@).contains(s@) {
            let j = choose|j: int| 0 <= j < name_views(names@).len() && name_views(names@)[j] == s@;
            assert(names@[j]@ == s@);
        }
    }
    false
}

/// Index of the last '.' of `name`, or `None`.
fn find_last_dot(name: &str) -> (r: Option<usize>)
    ensures
        match r {
            Some(i) => i as int == last_dot(name@),
            None => last_dot(name@) == -1,
        },
{
    let len = name.unicode_len();
    let mut i: usize = len;
    assert(name@.take(len as int) =~= name@);
    while i > 0
        invariant
            i <= len == name@.len(),
            last_dot(name@) == last_dot(name@.take(i as int)),
        decreases i,
    {
        let ghost t = name@.take(i as int);
        assert(t.drop_last() =~= name@.take(i - 1));
        if name.get_char(i - 1) == '.' {
            return Some(i - 1);
        }
        i = i - 1;
    }
    assert(name@.take(0) =~= Seq::<char>::empty());
    None
}

/// Splits a file name into its stem and the text of its extension; an empty
/// text stands for no extension or an empty one.
fn split_name(name: &str) -> (r: (String, String))
    ensures
        r.0@ == stem_of(name@),
        r.1@ == match extension_of(name@) {
            Some(e) => e,
            None => Seq::empty(),
        },
{
    proof {
        reveal_strlit("");
    }
    proof {
        lemma_last_dot(name@);
    }
    match find_last_dot(name) {
        Some(i) => {
            if i > 0 {
                let len = name.unicode_len();
                let stem = name.substring_char(0, i);
                let ext = name.substring_char(i + 1, len);
                (String::from_str(stem), String::from_str(ext))
            } else {
                (String::from_str(name), String::from_str(""))
            }
        },
        None => (String::from_str(name), String::from_str("")),
    }
}

/// The stem of the file name `name`.
pub fn stem_string(name: &str) -> (r: String)
    ensures
        r@ == stem_of(name@),
{
    split_name(name).0
}

/// The `n`-th alternative name, from a stem and an extension text.
fn candidate_from_parts(stem: &String, ext: &String, n: u64) -> (r: String)
    ensures
        r@ == stem@ + copy_marker() + decimal(n as nat) + (if ext@.len() > 0 {
            seq!['.'] + ext@
        } else {
            Seq::empty()
        }),
{
    let mut r = stem.clone();
    proof {
        reveal_strlit("_copy_");
        reveal_strlit(".");
    }
    r.append("_copy_");
    let digits = decimal_string(n);
    r.append(digits.as_str());
    if ext.unicode_len() > 0 {
        r.append(".");
        r.append(ext.as_str());
    }
    assert(r@ =~= stem@ + copy_marker() + decimal(n as nat) + (if ext@.len() > 0 {
        seq!['.'] + ext@
    } else {
        Seq::empty()
    }));
    r
}

/// The name that a copy of the file `name` takes in a directory whose entries
/// are `taken`: `name` itself where it is free, else `{stem}_copy_{n}` (with
/// the extension kept) for the least `n >= 1` whose name is free.
pub fn unique_copy_name(name: &str, taken: &Vec<String>) -> (r: String)
    ensures
        is_copy_name(name@, name_views(taken@), r@),
{
    let own = String::from_str(name);
    if !names_contain(taken, &own) {
        return own;
    }
    let ghost names = name_views(taken@);
    let (stem, ext) = split_name(name);
    let mut k: usize = 0;
    while k < taken.len()
        invariant
            k <= taken.len(),
            names.contains(name@),
            names == name_views(taken@),
            stem@ == stem_of(name@),
            ext@ == match extension_of(name@) {
                Some(e) => e,
                None => Seq::<char>::empty(),
            },
            forall|m: nat| 1 <= m <= k ==> names.contains(#[trigger] copy_candidate(name@, m)),
        decreases taken.len() - k,
    {
        let n: usize = k + 1;
        let c = candidate_from_parts(&stem, &ext, n as u64);
        assert(c@ =~= copy_candidate(name@, n as nat));
        if !names_contain(taken, &c) {
            assert(is_first_free(name@, names, n as nat) && c@ == copy_candidate(name@, n as nat));
            return c;
        }
        k = n;
    }
    proof {
        lemma_taken_candidates_bound(name@, names, k as nat);
    }
    own
}

/// Where `name` and exactly its first `k` candidates are taken, a copy takes
/// candidate `k + 1`.
pub proof fn lemma_copy_takes_next(name: Seq<char>, taken: Seq<Seq<char>>, k: nat, r: Seq<char>)
    requires
        taken.contains(name),
        forall|m: nat| 1 <= m <= k ==> taken.contains(#[trigger] copy_candidate(name, m)),
        forall|m: nat| m > k ==> !taken.contains(#[trigger] copy_candidate(name, m)),
        is_copy_name(name, taken, r),
    ensures
        r == copy_candidate(name, k + 1),
{
    let n = choose|n: nat| is_first_free(name, taken, n) && r == copy_candidate(name, n);
    if n <= k {
        assert(taken.contains(copy_candidate(name, n)));
    } else if n > k + 1 {
        assert(taken.contains(copy_candidate(name, (k + 1) as nat)));
    }
}

/// Copies of one file made in turn into one directory count up without gaps:
/// where the file's name and exactly its first `k` candidates are taken, the
/// first copy takes candidate `k + 1`, and once that name is taken as well, the
/// next copy takes candidate `k + 2`.
pub proof fn lemma_copies_count_up(
    name: Seq<char>,
    taken: Seq<Seq<char>>,
    k: nat,
    first: Seq<char>,
    second: Seq<char>,
)
    requires
        taken.contains(name),
        forall|m: nat| 1 <= m <= k ==> taken.contains(#[trigger] copy_candidate(name, m)),
        forall|m: nat| m > k ==> !taken.contains(#[trigger] copy_candidate(name, m)),
        is_copy_name(name, taken, first),
        is_copy_name(name, taken.push(first), second),
    ensures
        first == copy_candidate(name, k + 1),
        second == copy_candidate(name, k + 2),
{
    lemma_copy_takes_next(name, taken, k, first);
    let after = taken.push(first);
    assert(after.contains(name)) by {
        let i = choose|i: int| 0 <= i < taken.len() && taken[i] == name;
        assert(after[i] == name);
    }
    assert forall|m: nat| 1 <= m <= k + 1 implies after.contains(#[trigger] copy_candidate(name, m)) by {
        if m <= k {
            let i = choose|i: int| 0 <= i < taken.len() && taken[i] == copy_candidate(name, m);
            assert(after[i] == copy_candidate(name, m));
        } else {
            assert(after[taken.len() as int] == copy_candidate(name, m));
        }
    }
    assert forall|m: nat| m > k + 1 implies !after.contains(#[trigger] copy_candidate(name, m)) by {
        assert(!taken.contains(copy_candidate(name, m)));
        if after.contains(copy_candidate(name, m)) {
            let i = choose|i: int| 0 <= i < after.len() && after[i] == copy_candidate(name, m);
            if i < taken.len() {
                assert(taken[i] == after[i]);
            } else {
                lemma_candidate_injective(name, m, (k + 1) as nat);
            }
        }
    }
    lemma_copy_takes_next(name, after, (k + 1) as nat, second);
}

} // verus!
