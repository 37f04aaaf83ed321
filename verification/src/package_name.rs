//! Validated package names.

use vstd::prelude::*;
use vstd::slice::*;
use vstd::std_specs::convert::{FromSpecImpl, TryFromSpecImpl};
use vstd::string::*;
use vstd::utf8::*;

verus! {

/// Longest name, in bytes, that the registry accepts.
pub const MAX_NAME_LEN: usize = 214;

/// ASCII `a`.
pub const LOWER_A: u8 = 0x61;

/// ASCII `z`.
pub const LOWER_Z: u8 = 0x7a;

/// ASCII `0`.
pub const DIGIT_0: u8 = 0x30;

/// ASCII `9`.
pub const DIGIT_9: u8 = 0x39;

/// ASCII `_`.
pub const UNDERSCORE: u8 = 0x5f;

/// ASCII `-`.
pub const HYPHEN: u8 = 0x2d;

/// ASCII `.`.
pub const DOT: u8 = 0x2e;

/// ASCII `@`.
pub const AT_SIGN: u8 = 0x40;

/// ASCII `/`.
pub const SLASH: u8 = 0x2f;

/// The bytes allowed in an unscoped name and in each half of a scoped one:
/// lower-case ASCII letters, digits, `_`, `-` and `.`.
pub open spec fn name_byte(byte: u8) -> bool {
    ||| LOWER_A <= byte <= LOWER_Z
    ||| DIGIT_0 <= byte <= DIGIT_9
    ||| byte == UNDERSCORE
    ||| byte == HYPHEN
    ||| byte == DOT
}

/// Every byte of `bytes` is a `name_byte`.
pub open spec fn name_bytes(bytes: Seq<u8>) -> bool {
    forall|i: int| 0 <= i < bytes.len() ==> name_byte(#[trigger] bytes[i])
}

/// The rule a package name obeys, over its UTF-8 bytes.
///
/// A name is 1 to 214 bytes long and starts with neither `.` nor `_`. An
/// unscoped name consists of `name_byte`s only. A scoped name starts with `@`
/// and has a `/` such that what stands between the two, and what follows the
/// `/`, consists of `name_byte`s only.
pub open spec fn valid_name_bytes(bytes: Seq<u8>) -> bool {
    &&& 1 <= bytes.len() <= MAX_NAME_LEN
    &&& bytes[0] != DOT
    &&& bytes[0] != UNDERSCORE
    &&& if bytes[0] == AT_SIGN {
        exists|slash: int|
            {
                &&& 1 <= slash < bytes.len()
                &&& #[trigger] bytes[slash] == SLASH
                &&& name_bytes(bytes.subrange(1, slash))
                &&& name_bytes(bytes.subrange(slash + 1, bytes.len() as int))
            }
    } else {
        name_bytes(bytes)
    }
}

/// The rule a package name obeys, over its characters.
pub open spec fn valid_name(name: Seq<char>) -> bool {
    valid_name_bytes(encode_utf8(name))
}

/// Whether `byte` may stand in a name.
pub fn is_valid_package_name_byte(byte: u8) -> (r: bool)
    ensures
        r == name_byte(byte),
{
    (LOWER_A <= byte && byte <= LOWER_Z) || (DIGIT_0 <= byte && byte <= DIGIT_9) || byte
        == UNDERSCORE || byte == HYPHEN || byte == DOT
}

/// Whether every byte of `bytes` may stand in a name.
pub fn is_bytes_valid_pkg_name(bytes: &[u8]) -> (r: bool)
    ensures
        r == name_bytes(bytes@),
{
    let mut i: usize = 0;
    while i < bytes.len()
        invariant
            i <= bytes.len(),
            name_bytes(bytes@.subrange(0, i as int)),
        decreases bytes.len() - i,
    {
        if !is_valid_package_name_byte(bytes[i]) {
            return false;
        }
        assert(bytes@.subrange(0, i + 1) =~= bytes@.subrange(0, i as int).push(bytes@[i as int]));
        i += 1;
    }
    assert(bytes@.subrange(0, i as int) =~= bytes@);
    true
}

/// Whether `bytes` is a package name: the executable form of
/// `valid_name_bytes`.
pub fn is_valid_name_bytes(bytes: &[u8]) -> (r: bool)
    ensures
        r == valid_name_bytes(bytes@),
{
    let n: usize = bytes.len();
    if n == 0 || n > MAX_NAME_LEN {
        return false;
    }
    let first: u8 = bytes[0];
    if first == DOT || first == UNDERSCORE {
        return false;
    }
    if first != AT_SIGN {
        return is_bytes_valid_pkg_name(bytes);
    }
    let mut i: usize = 1;
    while i < n
        invariant
            1 <= i <= n,
            n == bytes.len(),
            n <= MAX_NAME_LEN,
            bytes@[0] == AT_SIGN,
            name_bytes(bytes@.subrange(1, i as int)),
        decreases n - i,
    {
        let byte: u8 = bytes[i];
        if byte == SLASH {
            let rest = slice_subrange(bytes, i + 1, n);
            let ok = is_bytes_valid_pkg_name(rest);
            proof {
                lemma_slash_is_first(bytes@, i as int);
            }
            return ok;
        }
        if !is_valid_package_name_byte(byte) {
            proof {
                lemma_no_slash_behind(bytes@, i as int);
            }
            return false;
        }
        assert(bytes@.subrange(1, i + 1) =~= bytes@.subrange(1, i as int).push(byte));
        i += 1;
    }
    proof {
        assert forall|slash: int| 1 <= slash < bytes@.len() implies #[trigger] bytes@[slash]
            != SLASH by {
            assert(bytes@.subrange(1, n as int)[slash - 1] == bytes@[slash]);
        }
    }
    false
}

/// In a scoped name whose scope consists of `name_byte`s up to a `/` at
/// `at`, that `/` is the only place where the name can be split.
proof fn lemma_slash_is_first(bytes: Seq<u8>, at: int)
    requires
        1 <= at < bytes.len() <= MAX_NAME_LEN,
        bytes[0] == AT_SIGN,
        bytes[at] == SLASH,
        name_bytes(bytes.subrange(1, at)),
    ensures
        valid_name_bytes(bytes) == name_bytes(bytes.subrange(at + 1, bytes.len() as int)),
{
    if valid_name_bytes(bytes) {
        let slash = choose|slash: int|
            {
                &&& 1 <= slash < bytes.len()
                &&& #[trigger] bytes[slash] == SLASH
                &&& name_bytes(bytes.subrange(1, slash))
                &&& name_bytes(bytes.subrange(slash + 1, bytes.len() as int))
            };
        if slash < at {
            assert(bytes.subrange(1, at)[slash - 1] == bytes[slash]);
        } else if slash > at {
            assert(bytes.subrange(1, slash)[at - 1] == bytes[at]);
        }
    }
}

/// A scoped name with a byte at `at` that is neither a `name_byte` nor `/`,
/// and no `/` before it, is no package name.
proof fn lemma_no_slash_behind(bytes: Seq<u8>, at: int)
    requires
        1 <= at < bytes.len(),
        bytes[0] == AT_SIGN,
        bytes[at] != SLASH,
        !name_byte(bytes[at]),
        name_bytes(bytes.subrange(1, at)),
    ensures
        !valid_name_bytes(bytes),
{
    if valid_name_bytes(bytes) {
        let slash = choose|slash: int|
            {
                &&& 1 <= slash < bytes.len()
                &&& #[trigger] bytes[slash] == SLASH
                &&& name_bytes(bytes.subrange(1, slash))
                &&& name_bytes(bytes.subrange(slash + 1, bytes.len() as int))
            };
        if slash < at {
            assert(bytes.subrange(1, at)[slash - 1] == bytes[slash]);
        } else if slash > at {
            assert(bytes.subrange(1, slash)[at - 1] == bytes[at]);
        }
    }
}

/// What is said of a string that was refused as a package name.
pub open spec fn refusal(input: Seq<char>) -> Seq<char> {
    "\""@ + input + "\" is not a valid npm package name"@
}

/// The string that was refused as a package name.
#[derive(Debug)]
pub struct PackageNameParseError(String);

impl View for PackageNameParseError {
    type V = Seq<char>;

    closed spec fn view(&self) -> Seq<char> {
        self.0@
    }
}

impl PackageNameParseError {
    /// The refused string.
    pub fn input(&self) -> (r: &str)
        ensures
            r@ == self@,
    {
        self.0.as_str()
    }

    /// The message of the error: the refused string in quotes, and that it
    /// is no package name.
    pub fn message(&self) -> (r: String)
        ensures
            r@ == refusal(self@),
    {
        let mut message = "\"".to_owned();
        message.append(self.0.as_str());
        message.append("\" is not a valid npm package name");
        message
    }
}

/// A package name that obeys `valid_name`.
#[derive(Debug, Hash, Ord)]
pub struct PackageName {
    name: String,
}

impl DeepView for PackageName {
    type V = Seq<char>;

    open spec fn deep_view(&self) -> Seq<char> {
        self@
    }
}

impl Clone for PackageName {
    fn clone(&self) -> (r: PackageName)
        ensures
            r@ == self@,
    {
        proof {
            use_type_invariant(self);
        }
        PackageName { name: self.name.clone() }
    }
}

impl View for PackageName {
    type V = Seq<char>;

    closed spec fn view(&self) -> Seq<char> {
        self.name@
    }
}

impl PackageName {
    /// What holds of every name: it obeys `valid_name`.
    #[verifier::type_invariant]
    pub closed spec fn well_formed(&self) -> bool {
        valid_name(self.name@)
    }

    /// The name as text. Every `PackageName` obeys `valid_name`.
    pub fn as_str(&self) -> (r: &str)
        ensures
            r@ == self@,
            valid_name(self@),
    {
        proof {
            use_type_invariant(self);
        }
        self.name.as_str()
    }

    /// The name as a string of its own.
    pub fn to_string(&self) -> (r: String)
        ensures
            r@ == self@,
    {
        self.name.clone()
    }

    /// The string that the name is made of.
    pub closed spec fn inner(self) -> String {
        self.name
    }

    /// What validating `name` gives.
    pub closed spec fn checked(name: String) -> Result<PackageName, PackageNameParseError> {
        if valid_name(name@) {
            Ok(PackageName { name })
        } else {
            Err(PackageNameParseError(name))
        }
    }

    /// Validates `name`. The error carries the refused string.
    pub fn new(name: String) -> (r: Result<PackageName, PackageNameParseError>)
        ensures
            r is Ok <==> valid_name(name@),
            r matches Ok(p) ==> p@ == name@,
            r matches Err(e) ==> e@ == name@,
            r == PackageName::checked(name),
    {
        if is_valid_name_bytes(name.as_str().as_bytes()) {
            Ok(PackageName { name })
        } else {
            Err(PackageNameParseError(name))
        }
    }
}

impl std::str::FromStr for PackageName {
    type Err = PackageNameParseError;

    fn from_str(s: &str) -> (r: Result<PackageName, PackageNameParseError>)
        ensures
            r is Ok <==> valid_name(s@),
            r matches Ok(p) ==> p@ == s@,
            r matches Err(e) ==> e@ == s@,
    {
        PackageName::new(s.to_owned())
    }
}

impl TryFrom<String> for PackageName {
    type Error = PackageNameParseError;

    fn try_from(value: String) -> (r: Result<PackageName, PackageNameParseError>)
        ensures
            r is Ok <==> valid_name(value@),
            r matches Ok(p) ==> p@ == value@,
            r matches Err(e) ==> e@ == value@,
    {
        PackageName::new(value)
    }
}

impl TryFromSpecImpl<String> for PackageName {
    open spec fn obeys_try_from_spec() -> bool {
        true
    }

    open spec fn try_from_spec(value: String) -> Result<PackageName, PackageNameParseError> {
        PackageName::checked(value)
    }
}

impl TryFrom<&str> for PackageName {
    type Error = PackageNameParseError;

    fn try_from(value: &str) -> (r: Result<PackageName, PackageNameParseError>)
        ensures
            r is Ok <==> valid_name(value@),
            r matches Ok(p) ==> p@ == value@,
            r matches Err(e) ==> e@ == value@,
    {
        PackageName::new(value.to_owned())
    }
}

impl TryFromSpecImpl<&str> for PackageName {
    open spec fn obeys_try_from_spec() -> bool {
        false
    }

    open spec fn try_from_spec(value: &str) -> Result<PackageName, PackageNameParseError> {
        arbitrary()
    }
}

impl From<PackageName> for String {
    fn from(name: PackageName) -> (r: String)
        ensures
            r@ == name@,
    {
        name.name
    }
}

impl FromSpecImpl<PackageName> for String {
    open spec fn obeys_from_spec() -> bool {
        true
    }

    open spec fn from_spec(name: PackageName) -> String {
        name.inner()
    }
}

} // verus!
