//! Rewriting an application's version pin in the document's text, leaving
//! every other character as it was.
use vstd::prelude::*;
use crate::error::Error;
use crate::support::{chars_of, string_from_chars};

verus! {

/// The key that a version pin starts with.
pub open spec fn version_key() -> Seq<char> {
    seq!['v', 'e', 'r', 's', 'i', 'o', 'n', ':']
}

/// White space that may stand between the key and the quoted version:
/// the characters with Unicode's White_Space property.
pub open spec fn is_pin_space(c: char) -> bool {
    ||| c == ' '
    ||| ('\t' <= c && c <= '\r')
    ||| c == '\u{85}'
    ||| c == '\u{A0}'
    ||| c == '\u{1680}'
    ||| ('\u{2000}' <= c && c <= '\u{200A}')
    ||| c == '\u{2028}'
    ||| c == '\u{2029}'
    ||| c == '\u{202F}'
    ||| c == '\u{205F}'
    ||| c == '\u{3000}'
}

/// Where the run of white space that starts at `p` ends.
pub open spec fn space_end(t: Seq<char>, p: int) -> int
    decreases t.len() - p,
{
    if 0 <= p < t.len() && is_pin_space(t[p]) {
        space_end(t, p + 1)
    } else {
        p
    }
}

/// Where the quoted version of a pin that starts at `i` begins.
pub open spec fn value_start(t: Seq<char>, i: int) -> int {
    space_end(t, i + version_key().len()) + 1
}

/// At `i` stands a pin of `version`: the key, white space, and `version`
/// in double quotes.
pub open spec fn pin_at(t: Seq<char>, version: Seq<char>, i: int) -> bool {
    let q = value_start(t, i) - 1;
    &&& 0 <= i
    &&& i + version_key().len() <= t.len()
    &&& t.subrange(i, i + version_key().len()) == version_key()
    &&& q + 1 + version.len() < t.len()
    &&& t[q] == '"'
    &&& t.subrange(q + 1, q + 1 + version.len()) == version
    &&& t[q + 1 + version.len()] == '"'
}

/// How many pins of `version` start before `n`.
pub open spec fn pin_count(t: Seq<char>, version: Seq<char>, n: nat) -> nat
    decreases n,
{
    if n == 0 {
        0
    } else {
        pin_count(t, version, (n - 1) as nat) + if pin_at(t, version, n - 1) { 1nat } else { 0nat }
    }
}

/// How many pins of `version` the text holds.
pub open spec fn pins(t: Seq<char>, version: Seq<char>) -> nat {
    pin_count(t, version, t.len())
}

/// The text with the version of the pin at `i` replaced.
pub open spec fn with_pin(t: Seq<char>, current: Seq<char>, latest: Seq<char>, i: int) -> Seq<char> {
    let v = value_start(t, i);
    t.subrange(0, v) + latest + t.subrange(v + current.len(), t.len() as int)
}

/// The text with its one pin of `current` set to `latest`.
pub open spec fn rewritten(t: Seq<char>, current: Seq<char>, latest: Seq<char>) -> Result<Seq<char>, Error> {
    if pins(t, current) == 0 {
        Err(Error::VersionPinNotFound)
    } else if pins(t, current) >= 2 {
        Err(Error::AmbiguousVersionPin)
    } else {
        Ok(with_pin(t, current, latest, choose|i: int| pin_at(t, current, i)))
    }
}

pub proof fn lemma_pin_counted(t: Seq<char>, version: Seq<char>, i: int, n: nat)
    requires
        pin_at(t, version, i),
        i < n,
    ensures
        pin_count(t, version, n) >= 1,
    decreases n,
{
    if i < n - 1 {
        lemma_pin_counted(t, version, i, (n - 1) as nat);
    }
}

pub proof fn lemma_two_pins_counted(t: Seq<char>, version: Seq<char>, i: int, j: int, n: nat)
    requires
        pin_at(t, version, i),
        pin_at(t, version, j),
        i < j < n,
    ensures
        pin_count(t, version, n) >= 2,
    decreases n,
{
    if j < n - 1 {
        lemma_two_pins_counted(t, version, i, j, (n - 1) as nat);
    } else {
        lemma_pin_counted(t, version, i, (n - 1) as nat);
    }
}

pub proof fn lemma_counted_pin_exists(t: Seq<char>, version: Seq<char>, n: nat)
    requires
        pin_count(t, version, n) >= 1,
    ensures
        exists|i: int| 0 <= i < n && pin_at(t, version, i),
    decreases n,
{
    if !pin_at(t, version, n - 1) {
        lemma_counted_pin_exists(t, version, (n - 1) as nat);
    }
}

/// With a single pin in the text, every pin stands at the same place.
pub proof fn lemma_single_pin(t: Seq<char>, version: Seq<char>, i: int, j: int)
    requires
        pins(t, version) == 1,
        pin_at(t, version, i),
        pin_at(t, version, j),
    ensures
        i == j,
{
    if i < j {
        lemma_two_pins_counted(t, version, i, j, t.len());
    } else if j < i {
        lemma_two_pins_counted(t, version, j, i, t.len());
    }
}

proof fn lemma_space_end_same_prefix(t: Seq<char>, u: Seq<char>, p: int)
    requires
        0 <= p,
        space_end(t, p) < t.len(),
        space_end(t, p) < u.len(),
        forall|j: int| p <= j <= space_end(t, p) ==> u[j] == t[j],
    ensures
        space_end(u, p) == space_end(t, p),
    decreases t.len() - p,
{
    lemma_space_end_bounds(t, p);
    assert(u[p] == t[p]);
    if p < t.len() && is_pin_space(t[p]) {
        lemma_space_end_same_prefix(t, u, p + 1);
    }
}

proof fn lemma_space_end_bounds(t: Seq<char>, p: int)
    ensures
        p <= space_end(t, p),
        p <= t.len() ==> space_end(t, p) <= t.len(),
    decreases t.len() - p,
{
    if 0 <= p < t.len() && is_pin_space(t[p]) {
        lemma_space_end_bounds(t, p + 1);
    }
}

/// Rewriting a text that holds exactly one pin of `current` changes nothing
/// but the pinned version: the result is the text before the version,
/// `latest`, and the text after it; and the pin now holds `latest`.
pub proof fn law_rewrite_replaces_only_the_version(t: Seq<char>, current: Seq<char>, latest: Seq<char>)
    requires
        pins(t, current) == 1,
    ensures
        exists|i: int| #![auto]
            pin_at(t, current, i) && {
                let v = value_start(t, i);
                &&& t.subrange(v, v + current.len()) == current
                &&& rewritten(t, current, latest) == Ok::<Seq<char>, Error>(
                    t.subrange(0, v) + latest + t.subrange(v + current.len(), t.len() as int),
                )
                &&& pin_at(rewritten(t, current, latest)->Ok_0, latest, i)
            },
{
    lemma_counted_pin_exists(t, current, t.len());
    let i = choose|i: int| 0 <= i < t.len() && pin_at(t, current, i);
    let c = choose|c: int| pin_at(t, current, c);
    lemma_single_pin(t, current, i, c);
    lemma_space_end_bounds(t, i + 8);
    let v = value_start(t, i);
    let u = t.subrange(0, v) + latest + t.subrange(v + current.len(), t.len() as int);
    assert(u.len() == t.len() - current.len() + latest.len());
    assert forall|j: int| 0 <= j < v implies u[j] == t[j] by {}
    lemma_space_end_same_prefix(t, u, i + 8);
    assert(u.subrange(i, i + 8) =~= t.subrange(i, i + 8));
    assert(u.subrange(v, v + latest.len()) =~= latest);
    assert(u[v + latest.len()] == t[v + current.len()]);
    assert(pin_at(u, latest, i));
}

fn is_space_char(c: char) -> (r: bool)
    ensures
        r == is_pin_space(c),
{
    c == ' ' || ('\t' <= c && c <= '\r') || c == '\u{85}' || c == '\u{A0}' || c == '\u{1680}'
        || ('\u{2000}' <= c && c <= '\u{200A}') || c == '\u{2028}' || c == '\u{2029}'
        || c == '\u{202F}' || c == '\u{205F}' || c == '\u{3000}'
}

/// Where the quoted version of the pin at `i` begins, when a pin of `version` stands there.
fn pin_value_at(t: &Vec<char>, version: &Vec<char>, i: usize) -> (r: Option<usize>)
    requires
        i <= t@.len(),
    ensures
        r is Some <==> pin_at(t@, version@, i as int),
        r matches Some(v) ==> v == value_start(t@, i as int),
{
    let key: Vec<char> = vec!['v', 'e', 'r', 's', 'i', 'o', 'n', ':'];
    assert(key@ =~= version_key());
    let n = t.len();
    if n - i < 8 {
        return None;
    }
    let mut k: usize = 0;
    while k < 8
        invariant
            key@ == version_key(),
            n == t@.len(),
            i + 8 <= n,
            0 <= k <= 8,
            forall|j: int| 0 <= j < k ==> t@[i + j] == key@[j],
        decreases 8 - k,
    {
        if t[i + k] != key[k] {
            assert(t@.subrange(i as int, i + 8)[k as int] != version_key()[k as int]);
            return None;
        }
        k = k + 1;
    }
    assert(t@.subrange(i as int, i + 8) =~= version_key());
    let mut q: usize = i + 8;
    while q < n && is_space_char(t[q])
        invariant
            n == t@.len(),
            i + 8 <= q <= n,
            space_end(t@, i + 8) == space_end(t@, q as int),
        decreases n - q,
    {
        q = q + 1;
    }
    assert(space_end(t@, q as int) == q);
    let m = version.len();
    if q >= n || t[q] != '"' || n - q - 1 <= m {
        return None;
    }
    let mut k: usize = 0;
    while k < m
        invariant
            n == t@.len(),
            m == version@.len(),
            q + 1 + m < n,
            space_end(t@, i + 8) == q,
            0 <= k <= m,
            forall|j: int| 0 <= j < k ==> t@[q + 1 + j] == version@[j],
        decreases m - k,
    {
        if t[q + 1 + k] != version[k] {
            assert(t@.subrange(q + 1, q + 1 + m)[k as int] != version@[k as int]);
            return None;
        }
        k = k + 1;
    }
    assert(t@.subrange(q + 1, q + 1 + m) =~= version@);
    if t[q + 1 + m] != '"' {
        return None;
    }
    Some(q + 1)
}

/// Sets the document's one pin of `current` to `latest`. Fails, and leaves
/// the document as it was, when it holds no such pin or more than one.
pub fn rewrite_version(doc: &mut String, current: &str, latest: &str) -> (r: Result<(), Error>)
    ensures
        r is Ok ==> rewritten(old(doc)@, current@, latest@) == Ok::<Seq<char>, Error>(final(doc)@),
        r matches Err(e) ==> rewritten(old(doc)@, current@, latest@) == Err::<Seq<char>, Error>(e),
        r is Err ==> final(doc)@ == old(doc)@,
        r == Err::<(), Error>(Error::VersionPinNotFound) <==> pins(old(doc)@, current@) == 0,
        r == Err::<(), Error>(Error::AmbiguousVersionPin) <==> pins(old(doc)@, current@) >= 2,
{
    let t = chars_of(doc.as_str());
    let cur = chars_of(current);
    let new = chars_of(latest);
    let n = t.len();
    let mut count: usize = 0;
    let mut first: usize = 0;
    let mut first_value: usize = 0;
    let mut i: usize = 0;
    while i < n
        invariant
            n == t@.len(),
            0 <= i <= n,
            count == pin_count(t@, cur@, i as nat),
            count <= i,
            count > 0 ==> first < i && pin_at(t@, cur@, first as int) && first_value == value_start(t@, first as int),
        decreases n - i,
    {
        match pin_value_at(&t, &cur, i) {
            Some(v) => {
                if count == 0 {
                    first = i;
                    first_value = v;
                }
                count = count + 1;
            },
            None => {},
        }
        i = i + 1;
    }
    if count == 0 {
        return Err(Error::VersionPinNotFound);
    }
    if count >= 2 {
        return Err(Error::AmbiguousVersionPin);
    }
    proof {
        let c = choose|c: int| pin_at(t@, cur@, c);
        lemma_single_pin(t@, cur@, first as int, c);
    }
    let mut out: Vec<char> = Vec::new();
    let mut k: usize = 0;
    while k < first_value
        invariant
            first_value < n == t@.len(),
            0 <= k <= first_value,
            out@ == t@.subrange(0, k as int),
        decreases first_value - k,
    {
        out.push(t[k]);
        k = k + 1;
        assert(out@ =~= t@.subrange(0, k as int));
    }
    let mut k: usize = 0;
    while k < new.len()
        invariant
            out@ == t@.subrange(0, first_value as int) + new@.subrange(0, k as int),
            0 <= k <= new@.len(),
        decreases new@.len() - k,
    {
        out.push(new[k]);
        k = k + 1;
        assert(out@ =~= t@.subrange(0, first_value as int) + new@.subrange(0, k as int));
    }
    assert(new@.subrange(0, new@.len() as int) =~= new@);
    let rest = first_value + cur.len();
    let mut k: usize = rest;
    while k < n
        invariant
            rest <= k <= n == t@.len(),
            out@ == t@.subrange(0, first_value as int) + new@ + t@.subrange(rest as int, k as int),
        decreases n - k,
    {
        out.push(t[k]);
        k = k + 1;
        assert(out@ =~= t@.subrange(0, first_value as int) + new@ + t@.subrange(rest as int, k as int));
    }
    *doc = string_from_chars(&out);
    Ok(())
}

} // verus!
