//! The publisher's naming rule: which name a payload gets in the destination
//! directory, so that it collides with nothing that is already there.

use vstd::prelude::*;
use vstd::string::StringExecFns;

verus! {

/// The character of the decimal digit `d`.
pub open spec fn digit_char(d: int) -> char {
    if d == 0 {
        '0'
    } else if d == 1 {
        '1'
    } else if d == 2 {
        '2'
    } else if d == 3 {
        '3'
    } else if d == 4 {
        '4'
    } else if d == 5 {
        '5'
    } else if d == 6 {
        '6'
    } else if d == 7 {
        '7'
    } else if d == 8 {
        '8'
    } else {
        '9'
    }
}

/// `n` in decimal, without leading zeros.
pub open spec fn decimal(n: nat) -> Seq<char>
    decreases n,
{
    if n < 10 {
        seq![digit_char(n as int)]
    } else {
        decimal(n / 10).push(digit_char((n % 10) as int))
    }
}

/// The disambiguation suffix: nothing for the first attempt, `(count)` after it.
pub open spec fn suffix(count: nat) -> Seq<char> {
    if count >= 1 {
        seq!['('] + decimal(count) + seq![')']
    } else {
        Seq::empty()
    }
}

/// The extension with its dot, or nothing where there is no extension.
pub open spec fn dotted(ext: Seq<char>) -> Seq<char> {
    if ext.len() == 0 {
        Seq::empty()
    } else {
        seq!['.'] + ext
    }
}

/// The candidate name of attempt `count`: the name, the suffix, the extension.
pub open spec fn built_name(name: Seq<char>, count: nat, ext: Seq<char>) -> Seq<char> {
    name + suffix(count) + dotted(ext)
}

/// `count` is the first attempt whose candidate is not among `taken`.
pub open spec fn first_free(
    taken: Seq<Seq<char>>,
    name: Seq<char>,
    ext: Seq<char>,
    count: nat,
) -> bool {
    &&& !taken.contains(built_name(name, count, ext))
    &&& forall|d: nat| d < count ==> taken.contains(#[trigger] built_name(name, d, ext))
}

/// The name under which a payload is published beside the names `taken`:
/// the candidate of the first attempt that is free.
pub open spec fn fresh_name_of(taken: Seq<Seq<char>>, name: Seq<char>, ext: Seq<char>) -> Seq<
    char,
> {
    built_name(name, fresh_count(taken, name, ext), ext)
}

/// The first attempt whose candidate is not among `taken`.
pub open spec fn fresh_count(taken: Seq<Seq<char>>, name: Seq<char>, ext: Seq<char>) -> nat {
    choose|count: nat| first_free(taken, name, ext, count)
}

/// A number's decimal form has a digit, and two from ten on.
pub proof fn lemma_decimal_len(n: nat)
    ensures
        decimal(n).len() >= 1,
        n >= 10 ==> decimal(n).len() >= 2,
    decreases n,
{
    if n >= 10 {
        lemma_decimal_len(n / 10);
    }
}

/// Two numbers with the same decimal form are the same number.
pub proof fn lemma_decimal_injective(a: nat, b: nat)
    requires
        decimal(a) == decimal(b),
    ensures
        a == b,
    decreases a,
{
    lemma_decimal_len(a);
    lemma_decimal_len(b);
    if a < 10 && b < 10 {
        assert(decimal(a)[0] == digit_char(a as int));
        assert(decimal(b)[0] == digit_char(b as int));
    } else if a >= 10 && b >= 10 {
        let x = decimal(a / 10);
        let y = decimal(b / 10);
        assert(decimal(a).drop_last() =~= x);
        assert(decimal(b).drop_last() =~= y);
        assert(decimal(a).last() == digit_char((a % 10) as int));
        assert(decimal(b).last() == digit_char((b % 10) as int));
        lemma_decimal_injective(a / 10, b / 10);
    }
}

/// Two attempts with the same candidate name are the same attempt.
pub proof fn lemma_built_name_injective(name: Seq<char>, ext: Seq<char>, a: nat, b: nat)
    requires
        built_name(name, a, ext) == built_name(name, b, ext),
    ensures
        a == b,
{
    let x = built_name(name, a, ext);
    let y = built_name(name, b, ext);
    lemma_decimal_len(a);
    lemma_decimal_len(b);
    assert(x.len() == name.len() + suffix(a).len() + dotted(ext).len());
    assert(y.len() == name.len() + suffix(b).len() + dotted(ext).len());
    let from = name.len() as int;
    assert(x.subrange(from, from + suffix(a).len()) =~= suffix(a));
    assert(y.subrange(from, from + suffix(b).len()) =~= suffix(b));
    if a >= 1 && b >= 1 {
        assert(suffix(a).subrange(1, suffix(a).len() - 1) =~= decimal(a));
        assert(suffix(b).subrange(1, suffix(b).len() - 1) =~= decimal(b));
        lemma_decimal_injective(a, b);
    }
}

/// The candidate names of the attempts before `k`.
pub open spec fn candidates(name: Seq<char>, ext: Seq<char>, k: nat) -> Set<Seq<char>>
    decreases k,
{
    if k == 0 {
        Set::empty()
    } else {
        candidates(name, ext, (k - 1) as nat).insert(built_name(name, (k - 1) as nat, ext))
    }
}

/// There are `k` candidate names before attempt `k`, each of an attempt before `k`.
pub proof fn lemma_candidates(name: Seq<char>, ext: Seq<char>, k: nat)
    ensures
        candidates(name, ext, k).finite(),
        candidates(name, ext, k).len() == k,
        forall|s: Seq<char>| #[trigger]
            candidates(name, ext, k).contains(s) ==> exists|d: nat|
                d < k && s == built_name(name, d, ext),
    decreases k,
{
    if k > 0 {
        let j = (k - 1) as nat;
        lemma_candidates(name, ext, j);
        let before = candidates(name, ext, j);
        let last = built_name(name, j, ext);
        if before.contains(last) {
            let d = choose|d: nat| d < j && last == built_name(name, d, ext);
            lemma_built_name_injective(name, ext, j, d);
        }
        assert forall|s: Seq<char>| #[trigger]
            candidates(name, ext, k).contains(s) implies exists|d: nat|
            d < k && s == built_name(name, d, ext) by {
            if s == last {
                assert(j < k && s == built_name(name, j, ext));
            } else {
                assert(before.contains(s));
                let d = choose|d: nat| d < j && s == built_name(name, d, ext);
                assert(d < k && s == built_name(name, d, ext));
            }
        }
    }
}

/// Among the first `taken.len() + 1` attempts one is free: where the
/// candidates of all attempts before `k` are taken, `k` is at most the
/// number of names taken.
pub proof fn lemma_taken_bound(taken: Seq<Seq<char>>, name: Seq<char>, ext: Seq<char>, k: nat)
    requires
        forall|d: nat| d < k ==> taken.contains(#[trigger] built_name(name, d, ext)),
    ensures
        k <= taken.len(),
{
    broadcast use vstd::seq_lib::seq_to_set_is_finite;

    lemma_candidates(name, ext, k);
    let all = candidates(name, ext, k);
    assert forall|s: Seq<char>| all.contains(s) implies taken.to_set().contains(s) by {
        let d = choose|d: nat| d < k && s == built_name(name, d, ext);
        assert(taken.contains(built_name(name, d, ext)));
    }
    vstd::set_lib::lemma_len_subset(all, taken.to_set());
    taken.lemma_cardinality_of_set();
}

/// The first free attempt exists, is at most the number of names taken, and
/// is the only one: `fresh_name_of` is its candidate.
pub proof fn lemma_first_free(taken: Seq<Seq<char>>, name: Seq<char>, ext: Seq<char>, count: nat)
    requires
        first_free(taken, name, ext, count),
    ensures
        count <= taken.len(),
        fresh_count(taken, name, ext) == count,
        fresh_name_of(taken, name, ext) == built_name(name, count, ext),
        !taken.contains(fresh_name_of(taken, name, ext)),
{
    lemma_taken_bound(taken, name, ext, count);
    let other = fresh_count(taken, name, ext);
    assert(first_free(taken, name, ext, other));
    if other < count {
        assert(taken.contains(built_name(name, other, ext)));
    } else if count < other {
        assert(taken.contains(built_name(name, count, ext)));
    }
}

/// Before attempt `k` either some attempt is the first free one, or all are taken.
proof fn lemma_search(taken: Seq<Seq<char>>, name: Seq<char>, ext: Seq<char>, k: nat)
    ensures
        (exists|c: nat| c < k && first_free(taken, name, ext, c)) || (forall|d: nat|
            d < k ==> taken.contains(#[trigger] built_name(name, d, ext))),
    decreases k,
{
    if k > 0 {
        let j = (k - 1) as nat;
        lemma_search(taken, name, ext, j);
        if exists|c: nat| c < j && first_free(taken, name, ext, c) {
            let c = choose|c: nat| c < j && first_free(taken, name, ext, c);
            assert(c < k && first_free(taken, name, ext, c));
        } else if !taken.contains(built_name(name, j, ext)) {
            assert(j < k && first_free(taken, name, ext, j));
        }
    }
}

/// Whatever names are taken, a fresh name exists: some attempt is the first
/// free one, and its candidate is not taken.
pub proof fn lemma_fresh_name(taken: Seq<Seq<char>>, name: Seq<char>, ext: Seq<char>)
    ensures
        first_free(taken, name, ext, fresh_count(taken, name, ext)),
        fresh_count(taken, name, ext) <= taken.len(),
        !taken.contains(fresh_name_of(taken, name, ext)),
{
    let k = taken.len() + 1;
    lemma_search(taken, name, ext, k);
    if forall|d: nat| d < k ==> taken.contains(#[trigger] built_name(name, d, ext)) {
        lemma_taken_bound(taken, name, ext, k);
    }
    let c = choose|c: nat| c < k && first_free(taken, name, ext, c);
    lemma_first_free(taken, name, ext, c);
}

/// Two payloads published one after the other under the same name and
/// extension get different names. The second publish finds in the directory
/// what the first found and the first artifact; its name is the candidate of
/// a later attempt. In a directory that held neither `name.ext` nor
/// `name(1).ext`, the first artifact is `name.ext` and the second `name(1).ext`.
pub proof fn lemma_published_twice(
    taken: Seq<Seq<char>>,
    later: Seq<Seq<char>>,
    name: Seq<char>,
    ext: Seq<char>,
)
    requires
        forall|s: Seq<char>|
            later.contains(s) <==> taken.contains(s) || s == fresh_name_of(taken, name, ext),
    ensures
        fresh_name_of(later, name, ext) != fresh_name_of(taken, name, ext),
        !taken.contains(fresh_name_of(taken, name, ext)),
        !later.contains(fresh_name_of(later, name, ext)),
        fresh_count(taken, name, ext) < fresh_count(later, name, ext),
        !taken.contains(built_name(name, 0, ext)) ==> fresh_name_of(taken, name, ext) == name
            + dotted(ext),
        !taken.contains(built_name(name, 0, ext)) && !taken.contains(built_name(name, 1, ext))
            ==> fresh_name_of(later, name, ext) == name + seq!['(', '1', ')'] + dotted(ext),
{
    lemma_fresh_name(taken, name, ext);
    lemma_fresh_name(later, name, ext);
    let first = fresh_count(taken, name, ext);
    let second = fresh_count(later, name, ext);
    if second <= first {
        if second < first {
            assert(taken.contains(built_name(name, second, ext)));
        }
        assert(later.contains(built_name(name, second, ext)));
    }
    if !taken.contains(built_name(name, 0, ext)) {
        lemma_first_free(taken, name, ext, 0);
        assert(built_name(name, 0, ext) =~= name + dotted(ext));
        if !taken.contains(built_name(name, 1, ext)) {
            let one = built_name(name, 1, ext);
            if later.contains(one) {
                lemma_built_name_injective(name, ext, 1, 0);
            }
            assert(first_free(later, name, ext, 1)) by {
                assert forall|d: nat| d < 1 implies later.contains(
                    #[trigger] built_name(name, d, ext),
                ) by {
                    assert(d == 0);
                }
            }
            lemma_first_free(later, name, ext, 1);
            assert(decimal(1) =~= seq!['1']);
            assert(one =~= name + seq!['(', '1', ')'] + dotted(ext));
        }
    }
}

/// The destination directory of the publisher, and its naming rule.
///
/// A caller that publishes from several transfers guards it with one lock,
/// held from reading the directory until the payload is copied and owned.
pub struct LockCopy {
    path: String,
}

/// The one-character string of the decimal digit `d`.
fn digit_str(d: u64) -> (s: &'static str)
    requires
        d < 10,
    ensures
        s@ == seq![digit_char(d as int)],
{
    proof {
        reveal_strlit("0");
        reveal_strlit("1");
        reveal_strlit("2");
        reveal_strlit("3");
        reveal_strlit("4");
        reveal_strlit("5");
        reveal_strlit("6");
        reveal_strlit("7");
        reveal_strlit("8");
        reveal_strlit("9");
    }
    let s = if d == 0 {
        "0"
    } else if d == 1 {
        "1"
    } else if d == 2 {
        "2"
    } else if d == 3 {
        "3"
    } else if d == 4 {
        "4"
    } else if d == 5 {
        "5"
    } else if d == 6 {
        "6"
    } else if d == 7 {
        "7"
    } else if d == 8 {
        "8"
    } else {
        "9"
    };
    assert(s@ =~= seq![digit_char(d as int)]);
    s
}

/// Appends `n` in decimal to `s`.
fn push_decimal(s: &mut String, n: u64)
    ensures
        final(s)@ == old(s)@ + decimal(n as nat),
    decreases n,
{
    if n >= 10 {
        push_decimal(s, n / 10);
    }
    s.append(digit_str(n % 10));
    assert(s@ =~= old(s)@ + decimal(n as nat));
}

/// Whether `name` is among `taken`.
fn is_taken(taken: &Vec<String>, name: &String) -> (found: bool)
    ensures
        found == taken@.map_values(|s: String| s@).contains(name@),
{
    let ghost names = taken@.map_values(|s: String| s@);
    let mut i: usize = 0;
    while i < taken.len()
        invariant
            i <= taken.len(),
            names == taken@.map_values(|s: String| s@),
            forall|k: int| 0 <= k < i ==> names[k] != name@,
        decreases taken.len() - i,
    {
        if taken[i] == *name {
            assert(names[i as int] == name@);
            return true;
        }
        i = i + 1;
    }
    false
}

impl LockCopy {
    /// A publisher for the directory `path`.
    pub fn new(path: &str) -> (lc: LockCopy)
        ensures
            lc.path()@ == path@,
    {
        LockCopy { path: path.to_owned() }
    }

    /// The destination directory.
    pub closed spec fn path(&self) -> String {
        self.path
    }

    /// The destination directory.
    pub fn dir(&self) -> (path: &str)
        ensures
            path@ == self.path()@,
    {
        self.path.as_str()
    }

    /// The candidate name of attempt `count`: `name`, then `(count)` from the
    /// second attempt on, then `.ext` unless `ext` is empty.
    pub fn build_name(name: &str, count: u64, ext: &str) -> (built: String)
        ensures
            built@ == built_name(name@, count as nat, ext@),
    {
        proof {
            reveal_strlit("(");
            reveal_strlit(")");
            reveal_strlit(".");
        }
        let mut built = name.to_owned();
        if count >= 1 {
            built.append("(");
            push_decimal(&mut built, count);
            built.append(")");
        }
        if !ext.is_empty() {
            built.append(".");
            built.append(ext);
        }
        assert(built@ =~= built_name(name@, count as nat, ext@));
        built
    }

    /// The name under which a payload is published beside the names `taken`
    /// of the destination directory: the candidate of the first attempt that
    /// is not among them.
    pub fn fresh_name(taken: &Vec<String>, name: &str, ext: &str) -> (fresh: String)
        ensures
            fresh@ == fresh_name_of(taken@.map_values(|s: String| s@), name@, ext@),
            !taken@.map_values(|s: String| s@).contains(fresh@),
    {
        let ghost names = taken@.map_values(|s: String| s@);
        let mut count: u64 = 0;
        loop
            invariant
                names == taken@.map_values(|s: String| s@),
                count <= taken.len(),
                forall|d: nat| d < count ==> names.contains(#[trigger] built_name(name@, d, ext@)),
            decreases taken.len() - count,
        {
            let candidate = LockCopy::build_name(name, count, ext);
            if is_taken(taken, &candidate) {
                proof {
                    lemma_taken_bound(names, name@, ext@, (count + 1) as nat);
                }
                count = count + 1;
            } else {
                proof {
                    lemma_first_free(names, name@, ext@, count as nat);
                }
                return candidate;
            }
        }
    }
}

} // verus!
