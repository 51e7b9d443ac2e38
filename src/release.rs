//! Names used by self-update: platform names, release versions, text comparison.
use vstd::prelude::*;
use vstd::string::StrSliceExecFns;
use vstd::utf8::{encode_utf8, encode_utf8_decode_utf8};

verus! {

/// Whether two texts are equal, compared by their UTF-8 bytes.
pub fn text_eq(a: &str, b: &str) -> (r: bool)
    ensures
        r == (a@ == b@),
{
    let x = a.as_bytes();
    let y = b.as_bytes();
    proof {
        encode_utf8_decode_utf8(a@);
        encode_utf8_decode_utf8(b@);
    }
    if x.len() != y.len() {
        return false;
    }
    let mut i: usize = 0;
    while i < x.len()
        invariant
            i <= x@.len(),
            x@.len() == y@.len(),
            x@ == encode_utf8(a@),
            y@ == encode_utf8(b@),
            forall|j: int| 0 <= j < i ==> x@[j] == y@[j],
        decreases x@.len() - i,
    {
        if x[i] != y[i] {
            return false;
        }
        i += 1;
    }
    assert(x@ =~= y@);
    true
}

/// Whether `needle` occurs in `hay`.
pub open spec fn occurs_in(needle: Seq<char>, hay: Seq<char>) -> bool {
    exists|i: int| 0 <= i <= hay.len() - needle.len() && #[trigger] hay.subrange(i, i + needle.len()) == needle
}

/// The release name of an operating system.
pub open spec fn os_release_name(os: Seq<char>) -> Seq<char> {
    if os == "macos"@ {
        "darwin"@
    } else {
        os
    }
}

/// The release name of a processor architecture.
pub open spec fn arch_release_name(arch: Seq<char>) -> Seq<char> {
    if arch == "x86_64"@ {
        "amd64"@
    } else if arch == "aarch64"@ {
        "arm64"@
    } else {
        arch
    }
}

/// The platform part of release asset names: "<os>-<arch>", with macOS named
/// "darwin", x86_64 named "amd64" and aarch64 named "arm64".
pub fn platform_name(os: &str, arch: &str) -> (r: String)
    ensures
        r@ == os_release_name(os@) + "-"@ + arch_release_name(arch@),
{
    let os_name = if text_eq(os, "macos") {
        "darwin"
    } else {
        os
    };
    let arch_name = if text_eq(arch, "x86_64") {
        "amd64"
    } else if text_eq(arch, "aarch64") {
        "arm64"
    } else {
        arch
    };
    os_name.to_owned().concat("-").concat(arch_name)
}

/// The version that a release tag names: the tag without its leading 'v's.
pub open spec fn tag_version(tag: Seq<char>) -> Seq<char>
    decreases tag.len(),
{
    if tag.len() > 0 && tag[0] == 'v' {
        tag_version(tag.drop_first())
    } else {
        tag
    }
}

/// Strips the leading 'v's of a release tag.
pub fn release_version(tag: &str) -> (r: &str)
    ensures
        r@ == tag_version(tag@),
{
    let mut rest = tag;
    while rest.unicode_len() > 0 && rest.get_char(0) == 'v'
        invariant
            tag_version(rest@) == tag_version(tag@),
        decreases rest@.len(),
    {
        let n = rest.unicode_len();
        let next = rest.substring_char(1, n);
        assert(next@ =~= rest@.drop_first());
        rest = next;
    }
    rest
}

/// Whether a platform name is that of a Windows build.
pub fn is_windows_platform(platform: &str) -> (r: bool)
    ensures
        r == occurs_in("windows"@, platform@),
{
    proof {
        reveal_strlit("windows");
    }
    let needle = "windows";
    let n = platform.unicode_len();
    if n < 7 {
        assert(!occurs_in("windows"@, platform@));
        return false;
    }
    let mut i: usize = 0;
    while i <= n - 7
        invariant
            n == platform@.len(),
            n >= 7,
            needle@ == "windows"@,
            needle@.len() == 7,
            forall|j: int| 0 <= j < i ==> #[trigger] platform@.subrange(j, j + 7) != "windows"@,
        decreases n - i,
    {
        let window = platform.substring_char(i, i + 7);
        if text_eq(window, needle) {
            return true;
        }
        i += 1;
    }
    false
}

} // verus!
