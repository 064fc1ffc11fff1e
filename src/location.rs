use std::cmp::Ordering;
use vstd::prelude::*;
use vstd::string::StringExecFns;

verus! {

/// A coordinate `(col, row)`: `col` grows to the right and `row` grows downward.
/// Any pair of signed integers is a legal location.
#[derive(Clone, Copy, Debug, Default, PartialEq, Eq, Hash, Structural)]
pub struct Location(pub isize, pub isize);

/// Row-major ("reading") order: first by row, then by column.
pub open spec fn loc_lt(a: Location, b: Location) -> bool {
    a.1 < b.1 || (a.1 == b.1 && a.0 < b.0)
}

/// The three-way comparison that `loc_lt` induces.
pub open spec fn loc_cmp(a: Location, b: Location) -> Ordering {
    if loc_lt(a, b) {
        Ordering::Less
    } else if a == b {
        Ordering::Equal
    } else {
        Ordering::Greater
    }
}

pub open spec fn abs(x: int) -> nat {
    if x < 0 { (-x) as nat } else { x as nat }
}

/// Manhattan distance between two locations.
pub open spec fn manhattan(a: Location, b: Location) -> nat {
    abs(a.0 - b.0) + abs(a.1 - b.1)
}

/// The decimal digit for `d`, which lies in `0..10`.
pub open spec fn digit_char(d: nat) -> char {
    if d == 0 { '0' }
    else if d == 1 { '1' }
    else if d == 2 { '2' }
    else if d == 3 { '3' }
    else if d == 4 { '4' }
    else if d == 5 { '5' }
    else if d == 6 { '6' }
    else if d == 7 { '7' }
    else if d == 8 { '8' }
    else { '9' }
}

/// The decimal digits of `n`, most significant first, without leading zeros.
pub open spec fn decimal(n: nat) -> Seq<char>
    decreases n,
{
    if n < 10 {
        seq![digit_char(n)]
    } else {
        decimal(n / 10).push(digit_char(n % 10))
    }
}

/// The decimal text of `n`, with a leading `-` when it is negative.
pub open spec fn signed_decimal(n: int) -> Seq<char> {
    if n < 0 {
        seq!['-'] + decimal((-n) as nat)
    } else {
        decimal(n as nat)
    }
}

/// The text of a location: `(col,row)`.
pub open spec fn loc_text(l: Location) -> Seq<char> {
    seq!['('] + signed_decimal(l.0 as int) + seq![','] + signed_decimal(l.1 as int) + seq![')']
}

/// Relies on std's `Display` for `isize` (through `to_string`): plain decimal,
/// with a leading `-` for a negative value.
#[verifier::external_body]
fn isize_text(n: isize) -> (r: String)
    ensures
        r@ == signed_decimal(n as int),
{
    n.to_string()
}

/// The distance between two `isize` values, computed without signed overflow.
fn abs_diff(a: isize, b: isize) -> (r: usize)
    ensures
        r == abs(a - b),
{
    if a >= b {
        (a as i128 - b as i128) as usize
    } else {
        (b as i128 - a as i128) as usize
    }
}

impl Location {
    /// Compares in row-major order: by row, then by column.
    pub fn cmp(&self, other: &Location) -> (r: Ordering)
        ensures
            r == loc_cmp(*self, *other),
    {
        if self.1 < other.1 {
            Ordering::Less
        } else if self.1 > other.1 {
            Ordering::Greater
        } else if self.0 < other.0 {
            Ordering::Less
        } else if self.0 > other.0 {
            Ordering::Greater
        } else {
            Ordering::Equal
        }
    }

    /// The text `(col,row)`, e.g. `(3,5)`.
    pub fn to_string(&self) -> (r: String)
        ensures
            r@ == loc_text(*self),
    {
        let mut s = String::from_str("(");
        s.append(isize_text(self.0).as_str());
        s.append(",");
        s.append(isize_text(self.1).as_str());
        s.append(")");
        proof {
            reveal_strlit("(");
            reveal_strlit(",");
            reveal_strlit(")");
        }
        s
    }

    /// The Manhattan distance `|dcol| + |drow|` between two locations.
    pub fn distance(&self, other: &Location) -> (r: u32)
        requires
            manhattan(*self, *other) <= u32::MAX,
        ensures
            r == manhattan(*self, *other),
    {
        let dx = abs_diff(self.0, other.0);
        let dy = abs_diff(self.1, other.1);
        (dx + dy) as u32
    }
}

impl PartialOrd for Location {
    fn partial_cmp(&self, other: &Location) -> (r: Option<Ordering>)
        ensures
            r == Some(loc_cmp(*self, *other)),
    {
        Some(self.cmp(other))
    }
}

impl vstd::std_specs::cmp::PartialOrdSpecImpl for Location {
    open spec fn obeys_partial_cmp_spec() -> bool {
        true
    }

    open spec fn partial_cmp_spec(&self, other: &Location) -> Option<Ordering> {
        Some(loc_cmp(*self, *other))
    }
}

/// Distance is symmetric, and a location is at distance zero from itself
/// and from no other location.
pub proof fn lemma_distance_symmetric(a: Location, b: Location)
    ensures
        manhattan(a, b) == manhattan(b, a),
        manhattan(a, a) == 0,
        manhattan(a, b) == 0 <==> a == b,
{
}

/// Locations are ordered row-major: `a` comes before `b` exactly when `a`
/// lies on an earlier row, or on the same row and an earlier column; two
/// locations compare equal exactly when they are the same.
pub proof fn lemma_row_major_order(a: Location, b: Location)
    ensures
        loc_cmp(a, b) == Ordering::Less <==> (a.1 < b.1 || (a.1 == b.1 && a.0 < b.0)),
        loc_cmp(a, b) == Ordering::Equal <==> a == b,
        loc_cmp(a, b) == Ordering::Greater <==> loc_cmp(b, a) == Ordering::Less,
{
}

/// Row-major order is transitive.
pub proof fn lemma_order_transitive(a: Location, b: Location, c: Location)
    requires
        loc_lt(a, b),
        loc_lt(b, c),
    ensures
        loc_lt(a, c),
{
}

} // verus!
