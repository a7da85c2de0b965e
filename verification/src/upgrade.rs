//! Self-upgrade: which release asset fits this machine and where it is
//! downloaded from.
use vstd::prelude::*;
use crate::config::join_relative;
use crate::platform::TargetOs;
use crate::text::{chars_of, same_text};

verus! {

/// The GitHub repository releases are published in.
pub const REPO: &'static str = "d5z/heart-portal";
/// The GitHub API endpoint of the latest release.
pub const GITHUB_API_LATEST: &'static str = "https://api.github.com/repos/d5z/heart-portal/releases/latest";

/// The release build for this machine, named by its slug (`linux-x86_64`, …).
#[derive(Clone, Debug)]
pub struct Platform {
    pub slug: String,
}

/// Why no release fits.
#[derive(Clone, Debug)]
pub enum PlatformError {
    UnsupportedMacArch { arch: String },
    UnsupportedLinuxArch { arch: String },
    UnsupportedWindowsArch { arch: String },
    UnsupportedOs { os: String },
}

impl PlatformError {
    /// The message shown to the operator.
    pub fn message(&self) -> (r: String)
        ensures
            self matches PlatformError::UnsupportedMacArch { arch } ==> r@
                == "Unsupported Mac architecture: "@ + arch@,
            self matches PlatformError::UnsupportedLinuxArch { arch } ==> r@
                == "Unsupported Linux architecture: "@ + arch@,
            self matches PlatformError::UnsupportedWindowsArch { arch } ==> r@
                == "Unsupported Windows architecture: "@ + arch@,
            self matches PlatformError::UnsupportedOs { os } ==> r@ == "Unsupported OS: "@ + os@,
    {
        let (prefix, what) = match self {
            PlatformError::UnsupportedMacArch { arch } => ("Unsupported Mac architecture: ", arch),
            PlatformError::UnsupportedLinuxArch { arch } => (
                "Unsupported Linux architecture: ",
                arch,
            ),
            PlatformError::UnsupportedWindowsArch { arch } => (
                "Unsupported Windows architecture: ",
                arch,
            ),
            PlatformError::UnsupportedOs { os } => ("Unsupported OS: ", os),
        };
        let mut m = String::from_str(prefix);
        m.append(what.as_str());
        m
    }
}

/// The slug of the release built for `os`/`arch` (Rust's `OS` and `ARCH`
/// names): macOS, Linux and Windows on x86_64 and aarch64.
pub open spec fn slug_spec(os: Seq<char>, arch: Seq<char>) -> Option<Seq<char>> {
    if os == "macos"@ {
        if arch == "aarch64"@ {
            Some("macos-arm64"@)
        } else if arch == "x86_64"@ {
            Some("macos-x86_64"@)
        } else {
            None
        }
    } else if os == "linux"@ {
        if arch == "x86_64"@ {
            Some("linux-x86_64"@)
        } else if arch == "aarch64"@ {
            Some("linux-arm64"@)
        } else {
            None
        }
    } else if os == "windows"@ {
        if arch == "x86_64"@ {
            Some("windows-x86_64"@)
        } else if arch == "aarch64"@ {
            Some("windows-aarch64"@)
        } else {
            None
        }
    } else {
        None
    }
}


/// The release slug for `os`/`arch`, or which of them is unsupported.
pub fn platform_slug(os: &str, arch: &str) -> (r: Result<&'static str, PlatformError>)
    ensures
        match slug_spec(os@, arch@) {
            Some(s) => r matches Ok(x) && x@ == s,
            None => r is Err,
        },
        os@ == "macos"@ && slug_spec(os@, arch@) is None ==> (r matches Err(
            PlatformError::UnsupportedMacArch { arch: a },
        ) && a@ == arch@),
        os@ == "linux"@ && slug_spec(os@, arch@) is None ==> (r matches Err(
            PlatformError::UnsupportedLinuxArch { arch: a },
        ) && a@ == arch@),
        os@ == "windows"@ && slug_spec(os@, arch@) is None ==> (r matches Err(
            PlatformError::UnsupportedWindowsArch { arch: a },
        ) && a@ == arch@),
        os@ != "macos"@ && os@ != "linux"@ && os@ != "windows"@ ==> (r matches Err(
            PlatformError::UnsupportedOs { os: o },
        ) && o@ == os@),
{
    proof {
        reveal_strlit("macos");
        reveal_strlit("linux");
        reveal_strlit("windows");
        assert("linux"@ != "macos"@) by {
            assert("linux"@[0] != "macos"@[0]);
        }
        assert("windows"@ != "macos"@ && "windows"@ != "linux"@) by {
            assert("windows"@.len() != "macos"@.len());
        }
    }
    if same_text(os, "macos") {
        if same_text(arch, "aarch64") {
            Ok("macos-arm64")
        } else if same_text(arch, "x86_64") {
            Ok("macos-x86_64")
        } else {
            Err(PlatformError::UnsupportedMacArch { arch: arch.to_owned() })
        }
    } else if same_text(os, "linux") {
        if same_text(arch, "x86_64") {
            Ok("linux-x86_64")
        } else if same_text(arch, "aarch64") {
            Ok("linux-arm64")
        } else {
            Err(PlatformError::UnsupportedLinuxArch { arch: arch.to_owned() })
        }
    } else if same_text(os, "windows") {
        if same_text(arch, "x86_64") {
            Ok("windows-x86_64")
        } else if same_text(arch, "aarch64") {
            Ok("windows-aarch64")
        } else {
            Err(PlatformError::UnsupportedWindowsArch { arch: arch.to_owned() })
        }
    } else {
        Err(PlatformError::UnsupportedOs { os: os.to_owned() })
    }
}

/// The platform for `os`/`arch` (`std::env::consts::OS` and `ARCH`).
pub fn platform_for(os: &str, arch: &str) -> (r: Result<Platform, PlatformError>)
    ensures
        match slug_spec(os@, arch@) {
            Some(s) => r matches Ok(p) && p.slug@ == s,
            None => r is Err,
        },
{
    match platform_slug(os, arch) {
        Ok(slug) => Ok(Platform { slug: String::from_str(slug) }),
        Err(e) => Err(e),
    }
}

/// The release asset of a platform: `heart-portal-<slug>`, with `.exe` for Windows.
pub open spec fn asset_name_spec(slug: Seq<char>) -> Seq<char> {
    "heart-portal-"@ + slug + if slug.len() >= 8 && slug.take(8) == "windows-"@ {
        ".exe"@
    } else {
        Seq::<char>::empty()
    }
}

/// The file name of the release asset for `platform`.
pub fn asset_name(platform: &Platform) -> (r: String)
    ensures
        r@ == asset_name_spec(platform.slug@),
{
    let cs = chars_of(platform.slug.as_str());
    proof {
        reveal_strlit("windows-");
    }
    let windows = cs.len() >= 8 && cs[0] == 'w' && cs[1] == 'i' && cs[2] == 'n' && cs[3] == 'd'
        && cs[4] == 'o' && cs[5] == 'w' && cs[6] == 's' && cs[7] == '-';
    proof {
        if windows {
            assert(cs@.take(8) =~= "windows-"@);
        } else if cs@.len() >= 8 && cs@.take(8) == "windows-"@ {
            assert(cs@.take(8)[0] == 'w' && cs@.take(8)[1] == 'i' && cs@.take(8)[2] == 'n'
                && cs@.take(8)[3] == 'd' && cs@.take(8)[4] == 'o' && cs@.take(8)[5] == 'w'
                && cs@.take(8)[6] == 's' && cs@.take(8)[7] == '-');
        }
    }
    let mut out = String::from_str("heart-portal-");
    out.append(platform.slug.as_str());
    if windows {
        out.append(".exe");
    } else {
        assert(out@ + Seq::<char>::empty() =~= out@);
    }
    out
}

/// Where the latest release asset for `platform` downloads from.
pub fn latest_download_url(platform: &Platform) -> (r: String)
    ensures
        r@ == "https://github.com/"@ + REPO@ + "/releases/latest/download/"@ + asset_name_spec(
            platform.slug@,
        ),
{
    let mut out = String::from_str("https://github.com/");
    out.append(REPO);
    out.append("/releases/latest/download/");
    out.append(asset_name(platform).as_str());
    out
}

/// The installed binary inside `install_dir`: `heart-portal.exe` on Windows,
/// `heart-portal` elsewhere.
pub fn binary_path(install_dir: &str, os: &TargetOs) -> (r: String)
    ensures
        r@ == join_relative(
            install_dir@,
            if os is Windows {
                "heart-portal.exe"@
            } else {
                "heart-portal"@
            },
            *os,
        ),
{
    let name = if os.is_windows() {
        "heart-portal.exe"
    } else {
        "heart-portal"
    };
    crate::config::resolve_relative(install_dir, name, os)
}

/// The version named by a release tag: the tag without its leading `v`s.
pub open spec fn tag_version(tag: Seq<char>) -> Seq<char>
    decreases tag.len(),
{
    if tag.len() > 0 && tag[0] == 'v' {
        tag_version(tag.drop_first())
    } else {
        tag
    }
}

/// The version of a release tag (`v0.6.1` → `0.6.1`).
pub fn release_version(tag: &str) -> (r: String)
    ensures
        r@ == tag_version(tag@),
{
    let cs = chars_of(tag);
    let mut i: usize = 0;
    proof {
        assert(cs@.skip(0) =~= cs@);
    }
    while i < cs.len() && cs[i] == 'v'
        invariant
            i <= cs.len(),
            tag_version(cs@) == tag_version(cs@.skip(i as int)),
        decreases cs.len() - i,
    {
        proof {
            crate::text::lemma_skip_drop_first(cs@, i as int);
        }
        i += 1;
    }
    proof {
        if i < cs.len() {
            crate::text::lemma_skip_drop_first(cs@, i as int);
        }
        assert(cs@.subrange(i as int, cs@.len() as int) =~= cs@.skip(i as int));
    }
    crate::text::string_of_range(&cs, i, cs.len())
}

/// The stamp in backup file names: the Unix time in seconds, or `unknown`
/// when the clock is before 1970.
pub fn backup_stamp_text(unix_secs: Option<u64>) -> (r: String)
    ensures
        match unix_secs {
            Some(s) => r@ == crate::numbers::decimal(s as nat),
            None => r@ == "unknown"@,
        },
{
    match unix_secs {
        Some(s) => crate::numbers::u64_to_string(s),
        None => String::from_str("unknown"),
    }
}

} // verus!
