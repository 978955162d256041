//! Region files: from a file name to the world position of the region.

use vstd::prelude::*;
use crate::error::SearchError;
use crate::pattern::{capture_groups, regex_accepts, regex_captures};
use crate::text::{
    all_digits, append_chars, chars_of, decimal_i32, decimal_value, is_digit, parse_i32_chars,
    same_chars,
};

verus! {

/// Blocks along one side of a region: 32 chunks of 16 blocks.
pub const REGION_SPAN: i32 = 512;

/// The form of a region file's name, `r.<X>.<Z>.mca`, as a regular
/// expression that the whole name must match. The two groups are the
/// region's indices, each an optional `-` and then digits.
pub const REGION_FILE_PATTERN: &'static str = r"^r\.(-?\d+)\.(-?\d+)\.mca$";

/// `s` writes a region index: an optional `-`, then one or more ASCII
/// digits.
pub open spec fn is_index(s: Seq<char>) -> bool {
    decimal_value(s) is Some && s[0] != '+'
}

/// The name of the region file with the indices written as `x` and `z`:
/// `r.`, then `x`, a dot, `z`, and `.mca`.
pub open spec fn region_name(x: Seq<char>, z: Seq<char>) -> Seq<char> {
    seq!['r', '.'] + x + seq!['.'] + z + seq!['.', 'm', 'c', 'a']
}

/// `name` is the name of a region file: `r.<X>.<Z>.mca` and nothing more,
/// with `<X>` and `<Z>` region indices.
pub open spec fn is_region_name(name: Seq<char>) -> bool {
    exists|x: Seq<char>, z: Seq<char>|
        name == #[trigger] region_name(x, z) && is_index(x) && is_index(z)
}

/// The origin of a region leaves room for the region's 512 by 512 blocks:
/// no block of the region has a coordinate beyond `i32`. This holds of every
/// origin that a file name gives.
pub open spec fn region_in_range(region: (i32, i32)) -> bool {
    region.0 + 511 <= i32::MAX && region.1 + 511 <= i32::MAX
}

/// The world coordinate at which the region with the index written as
/// `index` begins: 512 times the index, where that fits in `i32`.
pub open spec fn region_start(index: Seq<char>) -> Option<i32> {
    if is_index(index) {
        match decimal_i32(index) {
            Some(i) => if i32::MIN <= i * REGION_SPAN <= i32::MAX {
                Some((i * REGION_SPAN) as i32)
            } else {
                None
            },
            None => None,
        }
    } else {
        None
    }
}

/// `name` is the name of the region file of the region that begins at
/// `origin`: it is `r.<X>.<Z>.mca` with `origin` at `(X * 512, Z * 512)`.
pub open spec fn names_region(name: Seq<char>, origin: (i32, i32)) -> bool {
    exists|x: Seq<char>, z: Seq<char>|
        name == #[trigger] region_name(x, z) && region_start(x) == Some(origin.0) && region_start(z)
            == Some(origin.1)
}

/// The origin of the region whose file is named `name`, given the capture
/// groups that the search for the form of such a name found in `name`.
/// Group 1 is the region's index along x, group 2 along z; they count only
/// where they spell the whole of `name`.
pub open spec fn origin_of_captures(
    name: Seq<char>,
    groups: Option<Seq<Option<Seq<char>>>>,
) -> Result<(i32, i32), SearchError> {
    match groups {
        Some(g) => if g.len() > 2 && g[1] is Some && g[2] is Some && name == region_name(
            g[1]->0,
            g[2]->0,
        ) {
            match (region_start(g[1]->0), region_start(g[2]->0)) {
                (Some(x), Some(z)) => Ok((x, z)),
                _ => Err(SearchError::InvalidFilename),
            }
        } else {
            Err(SearchError::InvalidFilename)
        },
        None => Err(SearchError::InvalidFilename),
    }
}

/// The origin of the region stored in the file named `filename`: what the
/// search for the form of a region file's name in `filename` gives.
pub open spec fn region_origin(filename: Seq<char>) -> Result<(i32, i32), SearchError> {
    if regex_accepts(REGION_FILE_PATTERN@) {
        origin_of_captures(filename, regex_captures(REGION_FILE_PATTERN@, filename))
    } else {
        Err(SearchError::InvalidFilename)
    }
}

/// No character of a region index is a dot.
proof fn lemma_index_has_no_dot(s: Seq<char>, i: int)
    requires
        is_index(s),
        0 <= i < s.len(),
    ensures
        s[i] != '.',
{
    if s[0] == '-' {
        if i > 0 {
            assert(is_digit(s.skip(1)[i - 1]));
        }
    } else {
        assert(is_digit(s[i]));
    }
}

/// The name of a region file is read in one way only: two pairs of indices
/// that spell the same name are the same pair.
pub proof fn lemma_name_is_read_one_way(
    x: Seq<char>,
    z: Seq<char>,
    other_x: Seq<char>,
    other_z: Seq<char>,
)
    requires
        is_index(x),
        is_index(z),
        is_index(other_x),
        is_index(other_z),
        region_name(x, z) == region_name(other_x, other_z),
    ensures
        x == other_x,
        z == other_z,
{
    let name = region_name(x, z);
    let other = region_name(other_x, other_z);
    assert(name.len() == other.len());
    if x.len() < other_x.len() {
        lemma_index_has_no_dot(other_x, x.len() as int);
        assert(name[2 + x.len() as int] == '.');
        assert(other[2 + x.len() as int] == other_x[x.len() as int]);
    }
    if other_x.len() < x.len() {
        lemma_index_has_no_dot(x, other_x.len() as int);
        assert(other[2 + other_x.len() as int] == '.');
        assert(name[2 + other_x.len() as int] == x[other_x.len() as int]);
    }
    assert(x =~= other_x) by {
        assert forall|i: int| 0 <= i < x.len() implies x[i] == other_x[i] by {
            assert(name[2 + i] == x[i]);
            assert(other[2 + i] == other_x[i]);
        }
    }
    assert(z =~= other_z) by {
        assert forall|i: int| 0 <= i < z.len() implies z[i] == other_z[i] by {
            assert(name[3 + x.len() + i] == z[i]);
            assert(other[3 + x.len() + i] == other_z[i]);
        }
    }
}

/// The name of a region file begins with `r.`, ends with `.mca` and holds
/// between them nothing but digits, dots and `-`.
pub proof fn lemma_region_name_shape(name: Seq<char>)
    requires
        is_region_name(name),
    ensures
        name.len() >= 8,
        name[0] == 'r',
        name[1] == '.',
        name[name.len() - 4] == '.',
        name[name.len() - 3] == 'm',
        name[name.len() - 2] == 'c',
        name[name.len() - 1] == 'a',
        forall|i: int|
            2 <= i < name.len() - 4 ==> is_digit(#[trigger] name[i]) || name[i] == '.' || name[i]
                == '-',
{
    let (x, z) = choose|x: Seq<char>, z: Seq<char>|
        name == #[trigger] region_name(x, z) && is_index(x) && is_index(z);
    assert forall|i: int| 2 <= i < name.len() - 4 implies is_digit(#[trigger] name[i]) || name[i]
        == '.' || name[i] == '-' by {
        if i < 2 + x.len() {
            assert(name[i] == x[i - 2]);
            if x[0] == '-' {
                if i - 2 > 0 {
                    assert(is_digit(x.skip(1)[i - 3]));
                }
            } else {
                assert(is_digit(x[i - 2]));
            }
        } else if i == 2 + x.len() {
        } else {
            let k = i - 3 - x.len();
            assert(name[i] == z[k]);
            if z[0] == '-' {
                if k > 0 {
                    assert(is_digit(z.skip(1)[k - 1]));
                }
            } else {
                assert(is_digit(z[k]));
            }
        }
    }
}

/// Whatever the search for the form found: a name that is given an origin
/// is the name of a region file, and the origin is 512 times the indices
/// that it writes. The origin is then a multiple of 512 along both axes and
/// leaves room for the whole region.
pub proof fn lemma_origin_is_named(name: Seq<char>, groups: Option<Seq<Option<Seq<char>>>>)
    ensures
        origin_of_captures(name, groups) matches Ok(o) ==> {
            &&& names_region(name, o)
            &&& is_region_name(name)
            &&& o.0 % REGION_SPAN == 0
            &&& o.1 % REGION_SPAN == 0
            &&& region_in_range(o)
        },
{
    if origin_of_captures(name, groups) is Ok {
        let g = groups->0;
        assert(name == region_name(g[1]->0, g[2]->0));
    }
}

/// Whatever the search for the form found: a name that is not the name of a
/// region file is invalid, and no name fails in any other way.
pub proof fn lemma_other_names_are_invalid(
    name: Seq<char>,
    groups: Option<Seq<Option<Seq<char>>>>,
)
    ensures
        !is_region_name(name) ==> origin_of_captures(name, groups) is Err,
        origin_of_captures(name, groups) is Err ==> origin_of_captures(name, groups) == Err::<
            (i32, i32),
            SearchError,
        >(SearchError::InvalidFilename),
{
    lemma_origin_is_named(name, groups);
}

/// The file named `r.<X>.<Z>.mca` is given no origin but
/// `(X * 512, Z * 512)`, whatever the search for the form found; and it is
/// given that origin where the search found the two indices and both
/// products fit in `i32`.
pub proof fn lemma_indices_give_origin(
    x_text: Seq<char>,
    z_text: Seq<char>,
    x: i32,
    z: i32,
    groups: Option<Seq<Option<Seq<char>>>>,
)
    requires
        is_index(x_text),
        is_index(z_text),
        decimal_i32(x_text) == Some(x),
        decimal_i32(z_text) == Some(z),
    ensures
        origin_of_captures(region_name(x_text, z_text), groups) matches Ok(o) ==> o.0 == x
            * REGION_SPAN && o.1 == z * REGION_SPAN,
        (groups matches Some(g) && g.len() > 2 && g[1] == Some(x_text) && g[2] == Some(z_text)
            && i32::MIN <= x * REGION_SPAN <= i32::MAX && i32::MIN <= z * REGION_SPAN <= i32::MAX)
            ==> origin_of_captures(region_name(x_text, z_text), groups) == Ok::<
            (i32, i32),
            SearchError,
        >(((x * REGION_SPAN) as i32, (z * REGION_SPAN) as i32)),
{
    let name = region_name(x_text, z_text);
    if origin_of_captures(name, groups) is Ok {
        let g = groups->0;
        lemma_name_is_read_one_way(x_text, z_text, g[1]->0, g[2]->0);
    }
}

/// Reads a region index and scales it to blocks.
pub fn region_start_of(index: &Vec<char>) -> (start: Option<i32>)
    ensures
        start == region_start(index@),
        start matches Some(s) ==> s % REGION_SPAN == 0,
{
    if index.len() > 0 && index[0] == '+' {
        return None;
    }
    match parse_i32_chars(index) {
        Some(i) => i.checked_mul(REGION_SPAN),
        None => None,
    }
}

/// Whether `name` is `r.`, then `x`, a dot, `z`, and `.mca`.
pub fn spells_region_name(name: &Vec<char>, x: &Vec<char>, z: &Vec<char>) -> (spelled: bool)
    ensures
        spelled == (name@ == region_name(x@, z@)),
{
    let mut expected: Vec<char> = Vec::new();
    expected.push('r');
    expected.push('.');
    assert(expected@ =~= seq!['r', '.']);
    append_chars(&mut expected, x);
    expected.push('.');
    append_chars(&mut expected, z);
    expected.push('.');
    expected.push('m');
    expected.push('c');
    expected.push('a');
    assert(expected@ =~= region_name(x@, z@));
    same_chars(name, &expected)
}

/// Turns what the search for the form of a region file's name found in
/// `filename` into the region's origin.
///
/// The result is `Ok((X * 512, Z * 512))` where groups 1 and 2 are present,
/// write the region indices `X` and `Z`, spell together the whole of
/// `filename` as `r.<X>.<Z>.mca`, and both products fit in `i32`. It is
/// `Err(InvalidFilename)` in every other case: in particular for every
/// `filename` that is not the name of a region file, whatever the groups
/// hold.
pub fn origin_from_captures(filename: &str, groups: &Option<Vec<Option<String>>>) -> (origin:
    Result<(i32, i32), SearchError>)
    ensures
        origin == origin_of_captures(filename@, groups.deep_view()),
        origin matches Ok(o) ==> names_region(filename@, o) && region_in_range(o),
        !is_region_name(filename@) ==> origin == Err::<(i32, i32), SearchError>(
            SearchError::InvalidFilename,
        ),
{
    proof {
        lemma_origin_is_named(filename@, groups.deep_view());
        lemma_other_names_are_invalid(filename@, groups.deep_view());
    }
    match groups {
        Some(g) => {
            if g.len() <= 2 {
                return Err(SearchError::InvalidFilename);
            }
            match (&g[1], &g[2]) {
                (Some(x_text), Some(z_text)) => {
                    let name = chars_of(filename);
                    let x_chars = chars_of(x_text.as_str());
                    let z_chars = chars_of(z_text.as_str());
                    if !spells_region_name(&name, &x_chars, &z_chars) {
                        return Err(SearchError::InvalidFilename);
                    }
                    match (region_start_of(&x_chars), region_start_of(&z_chars)) {
                        (Some(x), Some(z)) => Ok((x, z)),
                        _ => Err(SearchError::InvalidFilename),
                    }
                },
                _ => Err(SearchError::InvalidFilename),
            }
        },
        None => Err(SearchError::InvalidFilename),
    }
}

/// Resolves the world position of block (0, 0) of the region stored in the
/// file named `filename`. The name is that of the file alone, without its
/// directory.
///
/// The name must be `r.<X>.<Z>.mca` and nothing more, with `X` and `Z`
/// decimal integers, each an optional `-` and then digits; the result is
/// then `(X * 512, Z * 512)`. Every other name gives
/// `Err(InvalidFilename)`, and so does a name whose indices leave the `i32`
/// range once scaled. The two indices are found by the regular expression
/// [`REGION_FILE_PATTERN`]; that they spell the name is checked here.
pub fn region_coordinates(filename: &str) -> (origin: Result<(i32, i32), SearchError>)
    ensures
        origin == region_origin(filename@),
        origin matches Ok(o) ==> names_region(filename@, o) && region_in_range(o),
        !is_region_name(filename@) ==> origin == Err::<(i32, i32), SearchError>(
            SearchError::InvalidFilename,
        ),
{
    match capture_groups(REGION_FILE_PATTERN, filename) {
        Ok(groups) => origin_from_captures(filename, &groups),
        Err(_) => {
            proof {
                lemma_other_names_are_invalid(filename@, None);
            }
            Err(SearchError::InvalidFilename)
        },
    }
}

} // verus!
