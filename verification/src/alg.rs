//! Keyword matching and usage scoring.
//!
//! A free-text token is matched against entity names by classifying each name
//! as an exact match, a keyword-prefix match, or a non-match; candidates are
//! then ranked by classification, usage score and allocation order. Scores
//! decay or grow with the time between hits.

use vstd::prelude::*;

verus! {

// ---------------------------------------------------------------------------
// ASCII character classes and case folding
// ---------------------------------------------------------------------------

/// True for ASCII letters.
pub open spec fn is_ascii_letter(c: char) -> bool {
    (97 <= c as u32 <= 122) || (65 <= c as u32 <= 90)
}

/// True for ASCII digits.
pub open spec fn is_ascii_number(c: char) -> bool {
    48 <= c as u32 <= 57
}

/// The ASCII-lowercased counterpart of a character; other characters are
/// left as they are.
pub open spec fn fold_char(c: char) -> char {
    if 65 <= c as u32 <= 90 {
        (((c as u8) + 32) as u8) as char
    } else {
        c
    }
}

/// A string with every character ASCII-lowercased.
pub open spec fn fold(s: Seq<char>) -> Seq<char> {
    s.map_values(|c: char| fold_char(c))
}

/// Exec mirror of [`is_ascii_letter`].
pub fn ascii_letter(c: char) -> (r: bool)
    ensures
        r == is_ascii_letter(c),
{
    let u = c as u32;
    (97 <= u && u <= 122) || (65 <= u && u <= 90)
}

/// Exec mirror of [`is_ascii_number`].
pub fn ascii_number(c: char) -> (r: bool)
    ensures
        r == is_ascii_number(c),
{
    let u = c as u32;
    48 <= u && u <= 57
}

/// Exec mirror of [`fold_char`].
pub fn fold_one(c: char) -> (r: char)
    ensures
        r == fold_char(c),
{
    let u = c as u32;
    if 65 <= u && u <= 90 {
        ((c as u8) + 32) as char
    } else {
        c
    }
}

/// Collects the characters of a string slice into a vector.
pub fn chars_of(s: &str) -> (r: Vec<char>)
    ensures
        r@ == s@,
{
    let n = s.unicode_len();
    let mut r: Vec<char> = Vec::new();
    let mut i: usize = 0;
    while i < n
        invariant
            n == s@.len(),
            i <= n,
            r@ == s@.subrange(0, i as int),
        decreases n - i,
    {
        r.push(s.get_char(i));
        i = i + 1;
        proof {
            assert(r@ =~= s@.subrange(0, i as int));
        }
    }
    proof {
        assert(r@ =~= s@);
    }
    r
}

/// ASCII-lowercases every character of a vector.
pub fn fold_vec(v: &Vec<char>) -> (r: Vec<char>)
    ensures
        r@ == fold(v@),
{
    let mut r: Vec<char> = Vec::new();
    let mut i: usize = 0;
    while i < v.len()
        invariant
            i <= v@.len(),
            r@.len() == i,
            forall|k: int| 0 <= k < i ==> r@[k] == fold_char(v@[k]),
        decreases v@.len() - i,
    {
        r.push(fold_one(v[i]));
        i = i + 1;
    }
    proof {
        assert(r@ =~= fold(v@));
    }
    r
}

// ---------------------------------------------------------------------------
// Keywords and match classification
// ---------------------------------------------------------------------------

/// True when two characters belong to the same keyword class: both ASCII
/// letters, or both ASCII digits.
pub open spec fn same_class(a: char, b: char) -> bool {
    (is_ascii_letter(a) && is_ascii_letter(b)) || (is_ascii_number(a) && is_ascii_number(b))
}

/// True when position `i` starts a keyword of `s`: a maximal run of ASCII
/// letters or, separately, of ASCII digits. Any other character is a
/// separator and belongs to no keyword.
pub open spec fn keyword_start(s: Seq<char>, i: int) -> bool {
    &&& 0 <= i < s.len()
    &&& (is_ascii_letter(s[i]) || is_ascii_number(s[i]))
    &&& (i == 0 || !same_class(s[i - 1], s[i]))
}

/// True when the pattern `p` is a prefix of the keyword of `n` starting at
/// position `i` (both already lowercased).
pub open spec fn prefix_at(n: Seq<char>, p: Seq<char>, i: int) -> bool {
    &&& keyword_start(n, i)
    &&& i + p.len() <= n.len()
    &&& n.subrange(i, i + p.len()) == p
    &&& forall|j: int| 0 <= j < p.len() ==> same_class(n[i], #[trigger] p[j])
}

/// True when some keyword of `n` starts with `p` (both already lowercased).
pub open spec fn prefix_in(n: Seq<char>, p: Seq<char>) -> bool {
    exists|i: int| prefix_at(n, p, i)
}

/// A name matches a token exactly when the two are equal after ASCII
/// lowercasing.
pub open spec fn is_exact_match(name: Seq<char>, pat: Seq<char>) -> bool {
    fold(name) == fold(pat)
}

/// A name is a prefix match for a token when some keyword of the lowercased
/// name starts with the lowercased token.
pub open spec fn is_prefix_match(name: Seq<char>, pat: Seq<char>) -> bool {
    prefix_in(fold(name), fold(pat))
}

/// A name matches a token when it is an exact or a prefix match.
pub open spec fn name_matches(name: Seq<char>, pat: Seq<char>) -> bool {
    is_exact_match(name, pat) || is_prefix_match(name, pat)
}

/// Compares two vectors of characters.
fn chars_eq(a: &Vec<char>, b: &Vec<char>) -> (r: bool)
    ensures
        r == (a@ == b@),
{
    if a.len() != b.len() {
        proof {
            assert(a@ != b@);
        }
        return false;
    }
    let mut i: usize = 0;
    while i < a.len()
        invariant
            a@.len() == b@.len(),
            i <= a@.len(),
            forall|k: int| 0 <= k < i ==> a@[k] == b@[k],
        decreases a@.len() - i,
    {
        if a[i] != b[i] {
            return false;
        }
        i = i + 1;
    }
    proof {
        assert(a@ =~= b@);
    }
    true
}

/// Exec mirror of [`keyword_start`]; `i` must be in range.
fn keyword_start_at(n: &Vec<char>, i: usize) -> (r: bool)
    requires
        i < n@.len(),
    ensures
        r == keyword_start(n@, i as int),
{
    let c = n[i];
    if !(ascii_letter(c) || ascii_number(c)) {
        return false;
    }
    if i == 0 {
        return true;
    }
    let prev = n[i - 1];
    !((ascii_letter(prev) && ascii_letter(c)) || (ascii_number(prev) && ascii_number(c)))
}

/// Exec mirror of [`prefix_at`]; `i` must be in range of `n`.
fn prefix_match_at(n: &Vec<char>, p: &Vec<char>, i: usize) -> (r: bool)
    requires
        i < n@.len(),
    ensures
        r == prefix_at(n@, p@, i as int),
{
    if !keyword_start_at(n, i) {
        return false;
    }
    let nlen = n.len();
    if nlen - i < p.len() {
        return false;
    }
    let head = n[i];
    let mut j: usize = 0;
    while j < p.len()
        invariant
            i < n@.len(),
            nlen == n@.len(),
            i + p@.len() <= n@.len(),
            j <= p@.len(),
            head == n@[i as int],
            forall|k: int| 0 <= k < j ==> n@[i + k] == p@[k],
            forall|k: int| 0 <= k < j ==> same_class(n@[i as int], #[trigger] p@[k]),
        decreases p@.len() - j,
    {
        let c = p[j];
        assert(i + j < nlen);
        if n[i + j] != c {
            proof {
                assert(n@.subrange(i as int, i + p@.len()) != p@) by {
                    assert(n@.subrange(i as int, i + p@.len())[j as int] == n@[i + j]);
                }
            }
            return false;
        }
        if !((ascii_letter(head) && ascii_letter(c)) || (ascii_number(head) && ascii_number(c))) {
            proof {
                assert(n@[i + j] == p@[j as int]);
                assert(!same_class(n@[i as int], p@[j as int]));
            }
            return false;
        }
        j = j + 1;
    }
    proof {
        assert(n@.subrange(i as int, i + p@.len()) =~= p@);
    }
    true
}

/// Exec mirror of [`prefix_in`] over already lowercased vectors.
fn prefix_search(n: &Vec<char>, p: &Vec<char>) -> (r: bool)
    ensures
        r == prefix_in(n@, p@),
{
    let mut i: usize = 0;
    while i < n.len()
        invariant
            i <= n@.len(),
            forall|k: int| 0 <= k < i ==> !prefix_at(n@, p@, k),
        decreases n@.len() - i,
    {
        if prefix_match_at(n, p, i) {
            return true;
        }
        i = i + 1;
    }
    proof {
        assert(forall|k: int| prefix_at(n@, p@, k) ==> 0 <= k < n@.len());
    }
    false
}

/// Compares two string slices for character equality.
pub fn str_eq(a: &str, b: &str) -> (r: bool)
    ensures
        r == (a@ == b@),
{
    let av = chars_of(a);
    let bv = chars_of(b);
    chars_eq(&av, &bv)
}

/// Classifies a name against a token: `Some(true)` for an exact match,
/// `Some(false)` for a prefix-only match, `None` for no match.
pub fn classify_match(name: &str, pat: &str) -> (r: Option<bool>)
    ensures
        r is Some <==> name_matches(name@, pat@),
        r == Some(true) <==> is_exact_match(name@, pat@),
{
    let nv = chars_of(name);
    let pv = chars_of(pat);
    let ln = fold_vec(&nv);
    let lp = fold_vec(&pv);
    if chars_eq(&ln, &lp) {
        Some(true)
    } else if prefix_search(&ln, &lp) {
        Some(false)
    } else {
        None
    }
}

/// Trait for named objects.
pub trait Name {
    /// The name of this instance, as a sequence of characters.
    spec fn spec_name(&self) -> Seq<char>;

    /// Gets the name of this instance.
    fn name(&self) -> (r: &str)
        ensures
            r@ == self.spec_name(),
    ;
}

impl Name for String {
    open spec fn spec_name(&self) -> Seq<char> {
        self@
    }

    fn name(&self) -> (r: &str) {
        self.as_str()
    }
}

/// How a candidate matched a token: exactly, or by keyword prefix only.
pub enum Match<V> {
    Exact(V),
    Prefix(V),
}

impl<V> Match<V> {
    /// The value carried by the match.
    pub open spec fn spec_inner(self) -> V {
        match self {
            Match::Exact(v) => v,
            Match::Prefix(v) => v,
        }
    }

    /// Extracts the inner value from the `Match`.
    pub fn into_inner(self) -> (r: V)
        ensures
            r == self.spec_inner(),
    {
        match self {
            Match::Exact(v) => v,
            Match::Prefix(v) => v,
        }
    }
}

impl<V: Name> Match<V> {
    /// Classifies a named value against a token: an exact match if the name
    /// equals the token after lowercasing, a prefix match if some keyword of
    /// the name starts with the token, and no match otherwise.
    pub fn match_named_value(pat: &str, v: V) -> (r: Option<Match<V>>)
        ensures
            r is Some <==> name_matches(v.spec_name(), pat@),
            match r {
                Some(m) => {
                    &&& m.spec_inner() == v
                    &&& (m is Exact <==> is_exact_match(v.spec_name(), pat@))
                },
                None => true,
            },
    {
        match classify_match(v.name(), pat) {
            Some(true) => Some(Match::Exact(v)),
            Some(false) => Some(Match::Prefix(v)),
            None => None,
        }
    }
}

// ---------------------------------------------------------------------------
// Scores
// ---------------------------------------------------------------------------

/// One whole unit of score value: score values are fixed-point numbers held
/// in a `u64`, in units of 2^-32, so that halving and quartering stay exact
/// over a long run of updates.
pub const SCORE_UNIT: u64 = 0x1_0000_0000;

/// The value seeded on the first hit of a previously unscored entity: 4.0.
pub const INITIAL_SCORE: u64 = 0x4_0000_0000;

/// Age bounds of the hit update, in seconds.
pub const HOUR_SECS: u64 = 3600;

/// One day, in seconds.
pub const DAY_SECS: u64 = 86400;

/// One week, in seconds.
pub const WEEK_SECS: u64 = 604800;

/// Represents the score (or rank) of an item: a recency-weighted usage
/// weight, and the unix time of the last hit.
#[derive(Clone, Copy, PartialEq, Eq, Structural, Debug)]
pub struct Score {
    /// Fixed-point score value, in units of 2^-32 (see [`SCORE_UNIT`]).
    pub value: u64,
    /// Unix timestamp (seconds) of the last hit.
    pub timestamp: u64,
}

impl Score {
    /// Constructs a new [`Score`] with a given value and timestamp.
    pub fn new(value: u64, timestamp: u64) -> (r: Score)
        ensures
            r == (Score { value, timestamp }),
    {
        Score { value, timestamp }
    }
}

/// A score value aged by the seconds since its last hit: quadrupled within
/// an hour, doubled within a day, halved within a week, quartered beyond.
/// Growth saturates at the largest representable value.
pub open spec fn aged_value(value: u64, age: u64) -> u64 {
    if age < HOUR_SECS {
        if value * 4 <= u64::MAX {
            (value * 4) as u64
        } else {
            u64::MAX
        }
    } else if age < DAY_SECS {
        if value * 2 <= u64::MAX {
            (value * 2) as u64
        } else {
            u64::MAX
        }
    } else if age < WEEK_SECS {
        value / 2
    } else {
        value / 4
    }
}

/// The score an entity carries after a hit at time `now`: a fresh seed of
/// [`INITIAL_SCORE`] when it had none, else its value aged by the time since
/// the prior hit, with the timestamp advanced to `now`. A timestamp ahead of
/// `now` counts as age zero.
pub open spec fn hit_score(prior: Option<Score>, now: u64) -> Score {
    match prior {
        None => Score { value: INITIAL_SCORE, timestamp: now },
        Some(s) => Score {
            value: aged_value(s.value, if now >= s.timestamp {
                (now - s.timestamp) as u64
            } else {
                0
            }),
            timestamp: now,
        },
    }
}

/// Updates a given score according to usage patterns.
///
/// This function should be called when an item is used or selected, with
/// `now` the current unix time in seconds.
pub fn update_score(score: &mut Option<Score>, now: u64)
    ensures
        *final(score) == Some(hit_score(*old(score), now)),
{
    match *score {
        None => {
            *score = Some(Score { value: INITIAL_SCORE, timestamp: now });
        },
        Some(s) => {
            let age = now.saturating_sub(s.timestamp);
            let value = if age < HOUR_SECS {
                match s.value.checked_mul(4) {
                    Some(v) => v,
                    None => u64::MAX,
                }
            } else if age < DAY_SECS {
                match s.value.checked_mul(2) {
                    Some(v) => v,
                    None => u64::MAX,
                }
            } else if age < WEEK_SECS {
                s.value / 2
            } else {
                s.value / 4
            };
            *score = Some(Score { value, timestamp: now });
        },
    }
}

/// A hit within one hour of the prior hit strictly quadruples the value, as
/// long as quadrupling stays representable.
pub proof fn lemma_hit_within_hour_quadruples(s: Score, now: u64)
    requires
        s.timestamp <= now,
        now - s.timestamp < HOUR_SECS,
        s.value * 4 <= u64::MAX,
    ensures
        hit_score(Some(s), now).value == 4 * s.value,
        hit_score(Some(s), now).timestamp == now,
{
}

/// A hit a week or more after the prior hit quarters the value: exactly, in
/// the fixed-point representation, whenever the value is a multiple of four.
pub proof fn lemma_hit_after_week_quarters(s: Score, now: u64)
    requires
        s.timestamp <= now,
        now - s.timestamp >= WEEK_SECS,
    ensures
        hit_score(Some(s), now).value == s.value / 4,
        s.value % 4 == 0 ==> 4 * hit_score(Some(s), now).value == s.value,
        hit_score(Some(s), now).timestamp == now,
{
}

// ---------------------------------------------------------------------------
// Ranking
// ---------------------------------------------------------------------------

/// One candidate's standing in the ranking: whether it matched exactly, its
/// score if any, and its allocation position.
pub open spec fn rank_entry(
    names: Seq<String>,
    scores: Seq<Option<Score>>,
    pat: Seq<char>,
    i: int,
) -> (bool, Option<Score>, int) {
    (is_exact_match(names[i]@, pat), scores[i], i)
}

/// The strict ranking order of candidates: an exact match beats a prefix
/// match; within a classification a scored entity beats an unscored one;
/// within those, a higher value wins; remaining ties go to the entity
/// allocated earlier.
pub open spec fn ranks_before(a: (bool, Option<Score>, int), b: (bool, Option<Score>, int)) -> bool {
    if a.0 != b.0 {
        a.0
    } else {
        match (a.1, b.1) {
            (Some(sa), Some(sb)) => if sa.value != sb.value {
                sa.value > sb.value
            } else {
                a.2 < b.2
            },
            (Some(sa), None) => true,
            (None, Some(sb)) => false,
            (None, None) => a.2 < b.2,
        }
    }
}

/// The ranking order is transitive.
pub proof fn lemma_ranks_before_trans(
    a: (bool, Option<Score>, int),
    b: (bool, Option<Score>, int),
    c: (bool, Option<Score>, int),
)
    requires
        ranks_before(a, b),
        ranks_before(b, c),
    ensures
        ranks_before(a, c),
{
}

/// The ranking order is total over entries with distinct positions.
pub proof fn lemma_ranks_before_total(a: (bool, Option<Score>, int), b: (bool, Option<Score>, int))
    requires
        a.2 != b.2,
        !ranks_before(a, b),
    ensures
        ranks_before(b, a),
{
}

/// Finds the closest matching name among candidates, under the ranking order.
///
/// `names` and `scores` are aligned by position; positions double as the
/// allocation-order tie-break, so candidates must be supplied in allocation
/// order. Returns the position of the winner, or `None` when no candidate
/// matches the token.
pub fn find_best(pat: &str, names: &Vec<String>, scores: &Vec<Option<Score>>) -> (r: Option<usize>)
    requires
        names@.len() == scores@.len(),
    ensures
        match r {
            Some(i) => {
                &&& 0 <= i < names@.len()
                &&& name_matches(names@[i as int]@, pat@)
                &&& forall|j: int|
                    0 <= j < names@.len() && j != i && name_matches(names@[j]@, pat@)
                        ==> ranks_before(
                        rank_entry(names@, scores@, pat@, i as int),
                        rank_entry(names@, scores@, pat@, j),
                    )
            },
            None => forall|j: int| 0 <= j < names@.len() ==> !name_matches(names@[j]@, pat@),
        },
{
    let mut best: Option<usize> = None;
    let mut i: usize = 0;
    while i < names.len()
        invariant
            names@.len() == scores@.len(),
            i <= names@.len(),
            match best {
                Some(b) => {
                    &&& 0 <= b < i
                    &&& name_matches(names@[b as int]@, pat@)
                    &&& forall|j: int|
                        0 <= j < i && j != b && name_matches(names@[j]@, pat@) ==> ranks_before(
                            rank_entry(names@, scores@, pat@, b as int),
                            rank_entry(names@, scores@, pat@, j),
                        )
                },
                None => forall|j: int| 0 <= j < i ==> !name_matches(names@[j]@, pat@),
            },
        decreases names@.len() - i,
    {
        let classified = classify_match(names[i].as_str(), pat);
        if let Some(exact) = classified {
            let entry_score = scores[i];
            match best {
                None => {
                    best = Some(i);
                },
                Some(b) => {
                    let best_exact = classify_match(names[b].as_str(), pat) == Some(true);
                    let best_score = scores[b];
                    let ghost ea = rank_entry(names@, scores@, pat@, i as int);
                    let ghost eb = rank_entry(names@, scores@, pat@, b as int);
                    let takes = if exact != best_exact {
                        exact
                    } else {
                        match (entry_score, best_score) {
                            (Some(sa), Some(sb)) => sa.value > sb.value,
                            (Some(_), None) => true,
                            _ => false,
                        }
                    };
                    if takes {
                        proof {
                            assert(ranks_before(ea, eb));
                            assert forall|j: int|
                                0 <= j < i + 1 && j != i && name_matches(names@[j]@, pat@)
                                    implies ranks_before(ea, rank_entry(names@, scores@, pat@, j)) by {
                                if j != b {
                                    lemma_ranks_before_trans(
                                        ea,
                                        eb,
                                        rank_entry(names@, scores@, pat@, j),
                                    );
                                }
                            }
                        }
                        best = Some(i);
                    } else {
                        proof {
                            assert(!ranks_before(ea, eb));
                            lemma_ranks_before_total(ea, eb);
                        }
                    }
                },
            }
        }
        i = i + 1;
    }
    best
}

} // verus!
