//! Platforms that commands run on and how a configured target platform is
//! resolved against the platform the server itself runs on.

use vstd::prelude::*;

verus! {

/// An operating-system family that a command is executed on.
#[derive(Debug, Clone, Copy, PartialEq, Eq, Structural)]
pub enum RuntimePlatform {
    Windows,
    Linux,
    Macos,
}

/// The platform requested in configuration; `Auto` means the platform the
/// server runs on.
#[derive(Debug, Clone, Copy, PartialEq, Eq, Structural)]
pub enum TargetPlatform {
    Auto,
    Windows,
    Linux,
    Macos,
}

impl RuntimePlatform {
    /// Whether this is the Windows family.
    pub fn is_windows(self) -> (b: bool)
        ensures
            b == (self == RuntimePlatform::Windows),
    {
        match self {
            RuntimePlatform::Windows => true,
            _ => false,
        }
    }

    /// The lower-case name used in API payloads.
    pub fn as_name(self) -> (s: &'static str)
        ensures
            s@ == platform_name(self),
    {
        proof {
            reveal_strlit("windows");
            reveal_strlit("linux");
            reveal_strlit("macos");
        }
        match self {
            RuntimePlatform::Windows => "windows",
            RuntimePlatform::Linux => "linux",
            RuntimePlatform::Macos => "macos",
        }
    }
}

/// The lower-case name of a platform.
pub open spec fn platform_name(p: RuntimePlatform) -> Seq<char> {
    match p {
        RuntimePlatform::Windows => seq!['w', 'i', 'n', 'd', 'o', 'w', 's'],
        RuntimePlatform::Linux => seq!['l', 'i', 'n', 'u', 'x'],
        RuntimePlatform::Macos => seq!['m', 'a', 'c', 'o', 's'],
    }
}

/// The platform a target resolves to when the server runs on `current`.
pub open spec fn resolved_platform(target: TargetPlatform, current: RuntimePlatform) -> RuntimePlatform {
    match target {
        TargetPlatform::Auto => current,
        TargetPlatform::Windows => RuntimePlatform::Windows,
        TargetPlatform::Linux => RuntimePlatform::Linux,
        TargetPlatform::Macos => RuntimePlatform::Macos,
    }
}

/// Resolves a configured target platform; `Auto` becomes `current`, the
/// platform the server runs on.
pub fn resolve_target_platform(target: TargetPlatform, current: RuntimePlatform) -> (p: RuntimePlatform)
    ensures
        p == resolved_platform(target, current),
{
    match target {
        TargetPlatform::Auto => current,
        TargetPlatform::Windows => RuntimePlatform::Windows,
        TargetPlatform::Linux => RuntimePlatform::Linux,
        TargetPlatform::Macos => RuntimePlatform::Macos,
    }
}

/// Facts about the machine the server runs on that path mapping needs.
#[derive(Debug, Clone, Copy, PartialEq, Eq, Structural)]
pub struct HostPlatform {
    /// The platform the server runs on.
    pub platform: RuntimePlatform,
    /// Whether the server runs inside the Windows Subsystem for Linux.
    pub inside_wsl: bool,
}


/// Whether the kernel release text of a Linux machine names a Windows
/// Subsystem for Linux kernel: it holds "microsoft", in any case.
pub open spec fn names_wsl_kernel(os_release: Seq<char>) -> bool {
    crate::text::contains_seq(crate::text::ascii_lower_seq(os_release), "microsoft"@)
}

/// Whether the kernel release text names a Windows Subsystem for Linux kernel.
pub fn release_is_wsl(os_release: &str) -> (b: bool)
    ensures
        b == names_wsl_kernel(os_release@),
{
    let chars = crate::text::chars_of(os_release);
    let lower = crate::text::lower_ascii_chars(chars.as_slice());
    let needle = crate::text::chars_of("microsoft");
    crate::text::contains_chars(lower.as_slice(), needle.as_slice())
}

/// Whether the machine is a Windows Subsystem for Linux one: it runs Linux
/// and the kernel release text, where it could be read, names such a kernel.
pub fn is_wsl(platform: RuntimePlatform, os_release: Option<&str>) -> (b: bool)
    ensures
        b == (platform == RuntimePlatform::Linux && match os_release {
            Some(r) => names_wsl_kernel(r@),
            None => false,
        }),
{
    match platform {
        RuntimePlatform::Linux => match os_release {
            Some(r) => release_is_wsl(r),
            None => false,
        },
        _ => false,
    }
}
} // verus!
