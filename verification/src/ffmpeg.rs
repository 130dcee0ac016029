//! What FFmpeg's calls answer, and whether the FFmpeg libraries loaded are
//! the ones the program was built against.

use crate::text::{decimal, push_decimal};
use vstd::prelude::*;
use vstd::string::StringExecFns;

verus! {

/// FFmpeg's `AVERROR_EOF`: the tag `EOF ` read as a little endian number,
/// negated.
pub const AVERROR_EOF: i32 = -541478725i32;

/// FFmpeg's `AVERROR(EAGAIN)`, which differs between Apple's systems and
/// the rest.
pub fn eagain(apple: bool) -> (r: i32)
    ensures
        r == (if apple {
            -35i32
        } else {
            -11i32
        }),
{
    if apple {
        -35
    } else {
        -11
    }
}

/// What a call into FFmpeg answered.
#[derive(Clone, Copy, Debug, PartialEq, Eq, Structural)]
pub enum Status {
    Success,
    Again,
    Eof,
    Error(i32),
}

/// The status a call's result stands for, on an Apple system or not.
pub open spec fn status_of(result: i32, apple: bool) -> Status {
    if result >= 0 {
        Status::Success
    } else if result == (if apple {
        -35i32
    } else {
        -11i32
    }) {
        Status::Again
    } else if result == AVERROR_EOF {
        Status::Eof
    } else {
        Status::Error(result)
    }
}

impl Status {
    /// The status a call's result stands for, `apple` saying whether this
    /// runs on one of Apple's systems.
    pub fn of(result: i32, apple: bool) -> (r: Status)
        ensures
            r == status_of(result, apple),
    {
        if result >= 0 {
            Status::Success
        } else if result == eagain(apple) {
            Status::Again
        } else if result == AVERROR_EOF {
            Status::Eof
        } else {
            Status::Error(result)
        }
    }

    /// Whether the call went through, or only has to be made again later.
    pub fn is_ok(self) -> (r: bool)
        ensures
            r == (self is Success || self is Again),
    {
        match self {
            Status::Success | Status::Again => true,
            _ => false,
        }
    }
}

/// A library version as FFmpeg packs it: the major version above the
/// minor, above the micro, eight bits for each of the last two.
pub open spec fn packed(major: u32, minor: u32, micro: u32) -> u32 {
    (major << 16u32) | (minor << 8u32) | micro
}

/// Pack a version the way FFmpeg does.
pub fn version(major: u32, minor: u32, micro: u32) -> (r: u32)
    ensures
        r == packed(major, minor, micro),
{
    (major << 16u32) | (minor << 8u32) | micro
}

/// The major, minor and micro version a packed version holds.
pub open spec fn parts(version: u32) -> (u32, u32, u32) {
    (version >> 16u32, (version >> 8u32) & 0xffu32, version & 0xffu32)
}

/// A packed version written out as `major.minor.micro`.
pub open spec fn written(version: u32) -> Seq<char> {
    decimal(parts(version).0 as nat) + seq!['.'] + decimal(parts(version).1 as nat) + seq!['.'] + decimal(
        parts(version).2 as nat,
    )
}

/// A version packs without loss, so it is written out as the numbers it
/// was packed from, when each fits the bits it is given.
pub proof fn lemma_packed_parts(major: u32, minor: u32, micro: u32)
    requires
        major < 65536,
        minor < 256,
        micro < 256,
    ensures
        parts(packed(major, minor, micro)) == (major, minor, micro),
{
    assert(((major << 16u32) | (minor << 8u32) | micro) >> 16u32 == major) by (bit_vector)
        requires
            major < 65536,
            minor < 256,
            micro < 256,
    ;
    assert((((major << 16u32) | (minor << 8u32) | micro) >> 8u32) & 0xffu32 == minor) by (bit_vector)
        requires
            major < 65536,
            minor < 256,
            micro < 256,
    ;
    assert(((major << 16u32) | (minor << 8u32) | micro) & 0xffu32 == micro) by (bit_vector)
        requires
            major < 65536,
            minor < 256,
            micro < 256,
    ;
}

/// A newer library of the same major version can stand in for an older
/// one, and no library of another major version can.
pub proof fn lemma_compatible_by_version(built: (u32, u32, u32), loaded: (u32, u32, u32))
    requires
        built.0 < 65536 && built.1 < 256 && built.2 < 256,
        loaded.0 < 65536 && loaded.1 < 256 && loaded.2 < 256,
    ensures
        compatible(packed(built.0, built.1, built.2), packed(loaded.0, loaded.1, loaded.2)) == (loaded.0
            == built.0 && (loaded.1 > built.1 || (loaded.1 == built.1 && loaded.2 >= built.2))),
{
    lemma_packed_parts(built.0, built.1, built.2);
    lemma_packed_parts(loaded.0, loaded.1, loaded.2);
    let (a, b, c) = built;
    let (x, y, z) = loaded;
    assert(((a << 16u32) | (b << 8u32) | c) == a * 65536 + b * 256 + c) by (bit_vector)
        requires
            a < 65536,
            b < 256,
            c < 256,
    ;
    assert(((x << 16u32) | (y << 8u32) | z) == x * 65536 + y * 256 + z) by (bit_vector)
        requires
            x < 65536,
            y < 256,
            z < 256,
    ;
}

/// Write a packed version out as `major.minor.micro`.
pub fn format(version: u32) -> (r: String)
    ensures
        r@ == written(version),
{
    let mut s = String::new();
    push_decimal(&mut s, (version >> 16u32) as u64);
    s.append(".");
    push_decimal(&mut s, ((version >> 8u32) & 0xffu32) as u64);
    s.append(".");
    push_decimal(&mut s, (version & 0xffu32) as u64);
    proof {
        reveal_strlit(".");
    }
    assert(s@ =~= written(version));
    s
}

/// One of the FFmpeg libraries, and the version the program was built
/// against.
pub struct Library {
    pub name: &'static str,
    pub built: u32,
}

/// Whether a loaded library can stand in for the one built against: the
/// same major version, and no older.
pub open spec fn compatible(built: u32, loaded: u32) -> bool {
    loaded >> 16u32 == built >> 16u32 && loaded >= built
}

/// Why a loaded library cannot stand in for the one built against.
pub open spec fn mismatch(name: Seq<char>, built: u32, loaded: u32) -> Seq<char> {
    name + " "@ + written(built) + " was built against, but "@ + written(loaded)
        + " is loaded, and the two do not have the same structure layouts"@
}

impl Library {
    /// Whether the version of the library that was loaded can stand in for
    /// the one the program was built against, and why not when it cannot.
    pub fn check(&self, loaded: u32) -> (r: Result<(), String>)
        ensures
            compatible(self.built, loaded) ==> r is Ok,
            !compatible(self.built, loaded) ==> (r matches Err(message) && message@ == mismatch(
                self.name@,
                self.built,
                loaded,
            )),
    {
        if loaded >> 16u32 == self.built >> 16u32 && loaded >= self.built {
            return Ok(());
        }
        let mut message = String::from_str(self.name);
        message.append(" ");
        message.append(format(self.built).as_str());
        message.append(" was built against, but ");
        message.append(format(loaded).as_str());
        message.append(" is loaded, and the two do not have the same structure layouts");
        assert(message@ =~= mismatch(self.name@, self.built, loaded));
        Err(message)
    }
}

} // verus!
