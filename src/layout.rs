use vstd::prelude::*;

use crate::level::{is_blank, Grid};

verus! {

/// Why a layer name gives no layer index.
#[derive(Clone, Copy, Debug, PartialEq, Eq, Structural)]
pub enum LayerNameError {
    /// The `_` that ends the index comes before the place where the index starts.
    Misplaced,
    /// The characters between are not a decimal `i32`.
    NotANumber,
}

/// Why the layers of a level give no grid size.
#[derive(Clone, Copy, Debug, PartialEq, Eq, Structural)]
pub enum DimError {
    NoLayers,
    /// The layer at this index differs in size from the first one.
    Mismatch(usize),
}

/// The index of the first `c` in `s`.
pub open spec fn first_index_of(s: Seq<char>, c: char) -> Option<int>
    decreases s.len(),
{
    if s.len() == 0 {
        None
    } else if s[0] == c {
        Some(0)
    } else {
        match first_index_of(s.drop_first(), c) {
            Some(i) => Some(i + 1),
            None => None,
        }
    }
}

pub open spec fn is_digit(c: char) -> bool {
    '0' <= c <= '9'
}

pub open spec fn all_digits(s: Seq<char>) -> bool {
    forall|i: int| 0 <= i < s.len() ==> is_digit(#[trigger] s[i])
}

/// The number that a string of decimal digits spells.
pub open spec fn digits_value(s: Seq<char>) -> nat
    decreases s.len(),
{
    if s.len() == 0 {
        0
    } else {
        digits_value(s.drop_last()) * 10 + (s.last() as nat - '0' as nat) as nat
    }
}

/// The `i32` that `s` spells in decimal, with an optional leading `+` or `-`.
pub open spec fn parse_i32(s: Seq<char>) -> Option<i32> {
    let signed = s.len() > 0 && (s[0] == '-' || s[0] == '+');
    let body = if signed { s.drop_first() } else { s };
    let v: int = if signed && s[0] == '-' { -digits_value(body) } else { digits_value(body) as int };
    if body.len() > 0 && all_digits(body) && i32::MIN <= v <= i32::MAX {
        Some(v as i32)
    } else {
        None
    }
}

/// Where the layer index of a name starts: after the first `Z` (or at 1 without one).
pub open spec fn z_start(name: Seq<char>) -> int {
    match first_index_of(name, 'Z') {
        Some(i) => i + 1,
        None => 1,
    }
}

/// Where it ends: at the first `_`, or at the end of the name.
pub open spec fn z_end(name: Seq<char>) -> int {
    match first_index_of(name, '_') {
        Some(j) => j,
        None => name.len() as int,
    }
}

proof fn lemma_first_index_of(s: Seq<char>, c: char)
    ensures
        match first_index_of(s, c) {
            Some(i) => 0 <= i < s.len() && s[i] == c && forall|k: int| 0 <= k < i ==> s[k] != c,
            None => forall|k: int| 0 <= k < s.len() ==> s[k] != c,
        },
    decreases s.len(),
{
    if s.len() > 0 && s[0] != c {
        lemma_first_index_of(s.drop_first(), c);
        assert forall|k: int| 1 <= k < s.len() implies s[k] == s.drop_first()[k - 1] by {}
    }
}

fn find_char(name: &str, c: char) -> (r: Option<usize>)
    ensures
        match r {
            Some(i) => first_index_of(name@, c) == Some(i as int),
            None => first_index_of(name@, c) is None,
        },
{
    proof {
        lemma_first_index_of(name@, c);
    }
    let n = name.unicode_len();
    let mut i: usize = 0;
    while i < n
        invariant
            n == name@.len(),
            i <= n,
            forall|k: int| 0 <= k < i ==> name@[k] != c,
        decreases n - i,
    {
        if name.get_char(i) == c {
            proof {
                lemma_first_index_of(name@, c);
                match first_index_of(name@, c) {
                    Some(j) => {
                        if j < i {
                            assert(name@[j] == c);
                        }
                        if i < j {
                            assert(name@[i as int] == c);
                        }
                    },
                    None => {
                        assert(name@[i as int] == c);
                    },
                }
            }
            return Some(i);
        }
        i = i + 1;
    }
    None
}

/// Parses `name[start..end]` as an `i32`.
fn parse_span(name: &str, start: usize, end: usize) -> (r: Option<i32>)
    requires
        start <= end <= name@.len(),
    ensures
        r == parse_i32(name@.subrange(start as int, end as int)),
{
    let ghost s = name@.subrange(start as int, end as int);
    let mut i = start;
    let mut negative = false;
    if i < end {
        let c = name.get_char(i);
        if c == '-' || c == '+' {
            negative = c == '-';
            i = i + 1;
        }
        assert(s[0] == c);
    }
    let body_start = i;
    let ghost body = name@.subrange(body_start as int, end as int);
    assert(body =~= if s.len() > 0 && (s[0] == '-' || s[0] == '+') { s.drop_first() } else { s });
    let limit: u64 = 0x8000_0000;
    let mut acc: u64 = 0;
    let mut too_big = false;
    while i < end
        invariant
            limit == 0x8000_0000,
            s == name@.subrange(start as int, end as int),
            body =~= if s.len() > 0 && (s[0] == '-' || s[0] == '+') { s.drop_first() } else { s },
            negative == (s.len() > 0 && s[0] == '-'),
            body_start <= i <= end <= name@.len(),
            body == name@.subrange(body_start as int, end as int),
            all_digits(name@.subrange(body_start as int, i as int)),
            !too_big ==> acc == digits_value(name@.subrange(body_start as int, i as int)) && acc <= limit,
            too_big ==> digits_value(name@.subrange(body_start as int, i as int)) > limit,
        decreases end - i,
    {
        let c = name.get_char(i);
        let ghost prev = name@.subrange(body_start as int, i as int);
        let ghost next = name@.subrange(body_start as int, i + 1);
        assert(next.drop_last() =~= prev);
        assert(next.last() == c);
        if !('0' <= c && c <= '9') {
            assert(!all_digits(body)) by {
                assert(body[i - body_start] == c);
            }
            return None;
        }
        let d = (c as u32 - '0' as u32) as u64;
        if !too_big {
            acc = acc * 10 + d;
            if acc > limit {
                too_big = true;
            }
        }
        i = i + 1;
        assert(all_digits(next)) by {
            assert forall|k: int| 0 <= k < next.len() implies is_digit(#[trigger] next[k]) by {
                if k < prev.len() {
                    assert(next[k] == prev[k]);
                }
            }
        }
    }
    assert(name@.subrange(body_start as int, i as int) =~= body);
    if body_start == end || too_big {
        return None;
    }
    if negative {
        Some(-(acc as i64) as i32)
    } else if acc <= 0x7fff_ffff {
        Some(acc as i32)
    } else {
        None
    }
}

/// The layer index written in a layer's name, as in `"Z1_Tiles"`: the characters after
/// the first `Z` (after the first character when there is none) up to the first `_` (the
/// end when there is none), read as a decimal `i32`.
pub fn get_layer_z(name: &str) -> (r: Result<i32, LayerNameError>)
    ensures
        z_start(name@) > z_end(name@) <==> r == Err::<i32, LayerNameError>(LayerNameError::Misplaced),
        z_start(name@) <= z_end(name@) ==> r == match parse_i32(name@.subrange(z_start(name@), z_end(name@))) {
            Some(z) => Ok::<i32, LayerNameError>(z),
            None => Err(LayerNameError::NotANumber),
        },
{
    proof {
        lemma_first_index_of(name@, 'Z');
        lemma_first_index_of(name@, '_');
    }
    let n = name.unicode_len();
    let start: usize = match find_char(name, 'Z') {
        Some(i) => i + 1,
        None => 1,
    };
    let end: usize = match find_char(name, '_') {
        Some(j) => j,
        None => n,
    };
    if start > end {
        return Err(LayerNameError::Misplaced);
    }
    match parse_span(name, start, end) {
        Some(z) => Ok(z),
        None => Err(LayerNameError::NotANumber),
    }
}

/// The common `(width, height)` of a level's layers, given in order.
pub fn get_dim(sizes: &Vec<(i64, i64)>) -> (r: Result<(i64, i64), DimError>)
    ensures
        sizes@.len() == 0 <==> r == Err::<(i64, i64), DimError>(DimError::NoLayers),
        r matches Ok(d) ==> d == sizes@[0] && forall|i: int| 0 <= i < sizes@.len() ==> sizes@[i] == d,
        r matches Err(DimError::Mismatch(i)) ==> 0 < i < sizes@.len() && sizes@[i as int] != sizes@[0]
            && forall|k: int| 0 <= k < i ==> #[trigger] sizes@[k] == sizes@[0],
        sizes@.len() > 0 && (forall|i: int| 0 <= i < sizes@.len() ==> #[trigger] sizes@[i] == sizes@[0]) ==> r is Ok,
{
    if sizes.len() == 0 {
        return Err(DimError::NoLayers);
    }
    let first = sizes[0];
    let mut i: usize = 0;
    while i < sizes.len()
        invariant
            0 < sizes@.len(),
            first == sizes@[0],
            i <= sizes@.len(),
            forall|k: int| 0 <= k < i ==> sizes@[k] == first,
        decreases sizes@.len() - i,
    {
        if sizes[i].0 != first.0 || sizes[i].1 != first.1 {
            return Err(DimError::Mismatch(i));
        }
        i = i + 1;
    }
    Ok(first)
}

/// The highest layer index, and at least 0.
pub open spec fn max_z(zs: Seq<i32>) -> int
    decreases zs.len(),
{
    if zs.len() == 0 {
        0
    } else if zs.last() as int > max_z(zs.drop_last()) {
        zs.last() as int
    } else {
        max_z(zs.drop_last())
    }
}

/// An empty grid of `width` by `height` cells with one layer for every index from 0 to
/// the highest index in `layer_zs`.
pub fn create_grid(width: usize, height: usize, layer_zs: &Vec<i32>) -> (g: Grid)
    ensures
        is_blank(g@, width as nat, height as nat, (max_z(layer_zs@) + 1) as nat),
{
    let mut top: i32 = 0;
    let mut i: usize = 0;
    while i < layer_zs.len()
        invariant
            i <= layer_zs@.len(),
            top == max_z(layer_zs@.take(i as int)),
            0 <= top,
        decreases layer_zs@.len() - i,
    {
        assert(layer_zs@.take(i + 1).drop_last() =~= layer_zs@.take(i as int));
        if layer_zs[i] > top {
            top = layer_zs[i];
        }
        i = i + 1;
    }
    assert(layer_zs@.take(i as int) =~= layer_zs@);
    Grid::new(width, height, top as usize + 1)
}

} // verus!
