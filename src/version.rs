use blend::Blend;
use vstd::prelude::*;

verus! {

#[verifier::external_type_specification]
#[verifier::external_body]
pub struct ExBlend(Blend);

/// The `major` and `minor` version held in a parsed file's header.
pub uninterp spec fn header_version_of(blend: Blend) -> (u16, u16);

/// Relies on the header that `blend::Blend` holds: `blend.header.version`
/// is the `major` and `minor` version of the application that saved the
/// file (Blender 2.80 is `2` and `80`). It is a plain field read, so the
/// result depends on the value alone; nothing is claimed of its range, as
/// the fields are public and may hold anything.
#[verifier::external_body]
fn header_version(blend: &Blend) -> (r: (u16, u16))
    ensures
        r == header_version_of(*blend),
{
    let v = blend.blend.header.version;
    (v.major, v.minor)
}

/// At most 255.
pub open spec fn byte_sat(x: int) -> int {
    if x > 255 {
        255
    } else {
        x
    }
}

/// The version triplet `(major, minor tens, minor units)` of a version given
/// as major and minor number, as the digits `280` stand for `(2, 8, 0)`. A
/// part that does not fit a byte (no saved file has one) stops at 255.
pub open spec fn version_triplet_of(major: int, minor: int) -> (int, int, int) {
    (byte_sat(major), byte_sat(minor / 10), minor % 10)
}

/// Splits a major and minor version number into the digit triplet used to
/// pick version-dependent behaviour.
pub fn version_triplet(major: u16, minor: u16) -> (r: (u8, u8, u8))
    ensures
        (r.0 as int, r.1 as int, r.2 as int) == version_triplet_of(major as int, minor as int),
{
    let tens = minor / 10;
    (
        if major > 255 { 255 } else { major as u8 },
        if tens > 255 { 255 } else { tens as u8 },
        (minor % 10) as u8,
    )
}

/// The version triplet of the application that saved the file.
pub fn get_blend_version(blend: &Blend) -> (r: (u8, u8, u8))
    ensures
        (r.0 as int, r.1 as int, r.2 as int) == version_triplet_of(
            header_version_of(*blend).0 as int,
            header_version_of(*blend).1 as int,
        ),
{
    let (major, minor) = header_version(blend);
    version_triplet(major, minor)
}

} // verus!
