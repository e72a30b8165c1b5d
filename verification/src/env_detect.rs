//! The description of the machine an installation runs on, and how it is put
//! together from what was probed on the host.

use crate::text::{
    bracket, bracketed, clone_optional, clone_strings, debug_format, debug_quoted, decimal,
    decimal_digits, lowercase, str_eq, to_lowercase,
};
use sha2::Digest;
use vstd::bytes::{spec_u64_to_le_bytes, u64_to_le_bytes};
use vstd::prelude::*;
use vstd::utf8::encode_utf8;

verus! {

/// A digest that identifies an environment by its attributes.
#[derive(Debug)]
pub struct Fingerprint {
    pub os: String,
    pub os_version: String,
    pub cpu_arch: String,
    pub ram_gb: u64,
    pub hostname: Option<String>,
    pub hash: String,
}

/// What a [`Fingerprint`] says.
pub struct FingerprintView {
    pub os: Seq<char>,
    pub os_version: Seq<char>,
    pub cpu_arch: Seq<char>,
    pub ram_gb: u64,
    pub hostname: Option<Seq<char>>,
    pub hash: Seq<char>,
}

impl DeepView for Fingerprint {
    type V = FingerprintView;

    open spec fn deep_view(&self) -> FingerprintView {
        FingerprintView {
            os: self.os@,
            os_version: self.os_version@,
            cpu_arch: self.cpu_arch@,
            ram_gb: self.ram_gb,
            hostname: self.hostname.deep_view(),
            hash: self.hash@,
        }
    }
}

impl View for Fingerprint {
    type V = FingerprintView;

    open spec fn view(&self) -> FingerprintView {
        self.deep_view()
    }
}

impl Clone for Fingerprint {
    fn clone(&self) -> (r: Self)
        ensures
            r@ == self@,
    {
        Fingerprint {
            os: self.os.clone(),
            os_version: self.os_version.clone(),
            cpu_arch: self.cpu_arch.clone(),
            ram_gb: self.ram_gb,
            hostname: clone_optional(&self.hostname),
            hash: self.hash.clone(),
        }
    }
}

/// A snapshot of the host: operating system, CPU, memory and the package
/// managers found on it.
#[derive(Debug)]
pub struct Environment {
    pub os: String,
    pub os_version: String,
    pub cpu_arch: String,
    pub ram_gb: u64,
    pub pkg_managers: Vec<String>,
    pub fingerprint: Option<Fingerprint>,
}

/// What an [`Environment`] says.
pub struct EnvironmentView {
    pub os: Seq<char>,
    pub os_version: Seq<char>,
    pub cpu_arch: Seq<char>,
    pub ram_gb: u64,
    pub pkg_managers: Seq<Seq<char>>,
    pub fingerprint: Option<FingerprintView>,
}

impl DeepView for Environment {
    type V = EnvironmentView;

    open spec fn deep_view(&self) -> EnvironmentView {
        EnvironmentView {
            os: self.os@,
            os_version: self.os_version@,
            cpu_arch: self.cpu_arch@,
            ram_gb: self.ram_gb,
            pkg_managers: self.pkg_managers.deep_view(),
            fingerprint: self.fingerprint.deep_view(),
        }
    }
}

impl View for Environment {
    type V = EnvironmentView;

    open spec fn view(&self) -> EnvironmentView {
        self.deep_view()
    }
}

impl Clone for Environment {
    fn clone(&self) -> (r: Self)
        ensures
            r@ == self@,
    {
        let fingerprint = match &self.fingerprint {
            Some(f) => Some(f.clone()),
            None => None,
        };
        Environment {
            os: self.os.clone(),
            os_version: self.os_version.clone(),
            cpu_arch: self.cpu_arch.clone(),
            ram_gb: self.ram_gb,
            pkg_managers: clone_strings(&self.pkg_managers),
            fingerprint,
        }
    }
}

/// The name of an operating system in the form manifests use: `macos` and
/// `windows` as they are, any other name in lowercase.
pub open spec fn normalized_os(raw: Seq<char>) -> Seq<char> {
    if raw == "macos"@ {
        "macos"@
    } else if raw == "windows"@ {
        "windows"@
    } else {
        lowercase(raw)
    }
}

/// Brings the name of an operating system into the form manifests use.
pub fn normalize_os(raw: &str) -> (r: String)
    ensures
        r@ == normalized_os(raw@),
{
    if str_eq(raw, "macos") {
        String::from_str("macos")
    } else if str_eq(raw, "windows") {
        String::from_str("windows")
    } else {
        to_lowercase(raw)
    }
}

/// The name of a CPU architecture in the form manifests use: `x64` for
/// `x86_64`, `arm64` for `aarch64`, any other name in lowercase.
pub open spec fn normalized_arch(raw: Seq<char>) -> Seq<char> {
    if raw == "x86_64"@ {
        "x64"@
    } else if raw == "aarch64"@ {
        "arm64"@
    } else {
        lowercase(raw)
    }
}

/// Brings the name of a CPU architecture into the form manifests use.
pub fn normalize_arch(raw: &str) -> (r: String)
    ensures
        r@ == normalized_arch(raw@),
{
    if str_eq(raw, "x86_64") {
        String::from_str("x64")
    } else if str_eq(raw, "aarch64") {
        String::from_str("arm64")
    } else {
        to_lowercase(raw)
    }
}

/// The package managers to look for on a platform, in the order in which
/// they are reported.
pub open spec fn candidates_of(os: Seq<char>) -> Seq<Seq<char>> {
    if os == "macos"@ {
        seq!["brew"@]
    } else if os == "windows"@ {
        seq!["winget"@, "choco"@, "scoop"@]
    } else {
        Seq::empty()
    }
}

/// The package managers to look for on a platform.
pub fn package_manager_candidates(os: &str) -> (r: Vec<String>)
    ensures
        r.deep_view() == candidates_of(os@),
{
    let mut r: Vec<String> = Vec::new();
    if str_eq(os, "macos") {
        r.push(String::from_str("brew"));
    } else if str_eq(os, "windows") {
        r.push(String::from_str("winget"));
        r.push(String::from_str("choco"));
        r.push(String::from_str("scoop"));
    }
    assert(r.deep_view() =~= candidates_of(os@));
    r
}

/// Those among the first `n` candidates that `available` holds, in
/// candidate order.
pub open spec fn kept_prefix(candidates: Seq<Seq<char>>, available: Seq<Seq<char>>, n: int) -> Seq<
    Seq<char>,
>
    decreases n,
{
    if n <= 0 {
        Seq::empty()
    } else if available.contains(candidates[n - 1]) {
        kept_prefix(candidates, available, n - 1).push(candidates[n - 1])
    } else {
        kept_prefix(candidates, available, n - 1)
    }
}

/// The package managers of a platform that are present, given the commands
/// found on the host.
pub open spec fn managers_present(os: Seq<char>, available: Seq<Seq<char>>) -> Seq<Seq<char>> {
    kept_prefix(candidates_of(os), available, candidates_of(os).len() as int)
}

fn holds(items: &Vec<String>, wanted: &str) -> (r: bool)
    ensures
        r == items.deep_view().contains(wanted@),
{
    let ghost view = items.deep_view();
    let mut i: usize = 0;
    while i < items.len()
        invariant
            i <= items@.len(),
            view == items.deep_view(),
            forall|k: int| 0 <= k < i ==> #[trigger] view[k] != wanted@,
        decreases items@.len() - i,
    {
        assert(view[i as int] == items@[i as int]@);
        if str_eq(items[i].as_str(), wanted) {
            return true;
        }
        i += 1;
    }
    false
}

/// Lists the package managers of a platform that are present on the host,
/// given the commands that were found there.
pub fn detect_package_managers(os: &str, available: &Vec<String>) -> (r: Vec<String>)
    ensures
        r.deep_view() == managers_present(os@, available.deep_view()),
{
    let candidates = package_manager_candidates(os);
    let ghost wanted = candidates.deep_view();
    let mut managers: Vec<String> = Vec::new();
    let mut i: usize = 0;
    while i < candidates.len()
        invariant
            i <= candidates@.len(),
            wanted == candidates.deep_view(),
            managers.deep_view() == kept_prefix(wanted, available.deep_view(), i as int),
        decreases candidates@.len() - i,
    {
        assert(wanted[i as int] == candidates@[i as int]@);
        if holds(available, candidates[i].as_str()) {
            let ghost before = managers.deep_view();
            managers.push(candidates[i].clone());
            assert(managers.deep_view() =~= before.push(wanted[i as int]));
        }
        i += 1;
    }
    managers
}

/// The SHA-256 digest of a byte string, as `sha2::Sha256` computes it.
pub uninterp spec fn sha256_of(data: Seq<u8>) -> Seq<u8>;

/// Trusted: calls `sha2::Sha256::digest`, which hashes the bytes given and
/// nothing else. The contract only gives the digest its name; the hash
/// function itself is not restated.
#[verifier::external_body]
pub(crate) fn sha256(data: &[u8]) -> (r: Vec<u8>)
    ensures
        r@ == sha256_of(data@),
{
    sha2::Sha256::digest(data).to_vec()
}

/// The lowercase hexadecimal digit for `n`.
pub open spec fn hex_digit(n: nat) -> char {
    if n == 0 {
        '0'
    } else if n == 1 {
        '1'
    } else if n == 2 {
        '2'
    } else if n == 3 {
        '3'
    } else if n == 4 {
        '4'
    } else if n == 5 {
        '5'
    } else if n == 6 {
        '6'
    } else if n == 7 {
        '7'
    } else if n == 8 {
        '8'
    } else if n == 9 {
        '9'
    } else if n == 10 {
        'a'
    } else if n == 11 {
        'b'
    } else if n == 12 {
        'c'
    } else if n == 13 {
        'd'
    } else if n == 14 {
        'e'
    } else {
        'f'
    }
}

/// Bytes in lowercase hexadecimal, two digits each.
pub open spec fn hex_lower(bytes: Seq<u8>) -> Seq<char>
    decreases bytes.len(),
{
    if bytes.len() == 0 {
        Seq::empty()
    } else {
        hex_lower(bytes.drop_last()) + seq![
            hex_digit((bytes.last() / 16) as nat),
            hex_digit((bytes.last() % 16) as nat),
        ]
    }
}

fn hex_digit_str(n: u8) -> (s: &'static str)
    requires
        n < 16,
    ensures
        s@ == seq![hex_digit(n as nat)],
{
    proof {
        reveal_strlit("0");
        reveal_strlit("1");
        reveal_strlit("2");
        reveal_strlit("3");
        reveal_strlit("4");
        reveal_strlit("5");
        reveal_strlit("6");
        reveal_strlit("7");
        reveal_strlit("8");
        reveal_strlit("9");
        reveal_strlit("a");
        reveal_strlit("b");
        reveal_strlit("c");
        reveal_strlit("d");
        reveal_strlit("e");
        reveal_strlit("f");
    }
    let s = if n == 0 {
        "0"
    } else if n == 1 {
        "1"
    } else if n == 2 {
        "2"
    } else if n == 3 {
        "3"
    } else if n == 4 {
        "4"
    } else if n == 5 {
        "5"
    } else if n == 6 {
        "6"
    } else if n == 7 {
        "7"
    } else if n == 8 {
        "8"
    } else if n == 9 {
        "9"
    } else if n == 10 {
        "a"
    } else if n == 11 {
        "b"
    } else if n == 12 {
        "c"
    } else if n == 13 {
        "d"
    } else if n == 14 {
        "e"
    } else {
        "f"
    };
    assert(s@ =~= seq![hex_digit(n as nat)]);
    s
}

/// Writes bytes in lowercase hexadecimal, two digits each.
pub fn to_hex(bytes: &[u8]) -> (r: String)
    ensures
        r@ == hex_lower(bytes@),
{
    let mut r = String::new();
    let mut i: usize = 0;
    assert(bytes@.take(0) =~= Seq::<u8>::empty());
    while i < bytes.len()
        invariant
            i <= bytes@.len(),
            r@ == hex_lower(bytes@.take(i as int)),
        decreases bytes@.len() - i,
    {
        let b: u8 = bytes[i];
        let ghost before = r@;
        r.append(hex_digit_str(b / 16));
        r.append(hex_digit_str(b % 16));
        proof {
            let next = bytes@.take(i + 1);
            assert(next.drop_last() =~= bytes@.take(i as int));
            assert(next.last() == b);
            assert(r@ =~= before + seq![hex_digit((b / 16) as nat), hex_digit((b % 16) as nat)]);
        }
        i += 1;
    }
    assert(bytes@.take(bytes@.len() as int) =~= bytes@);
    r
}

/// The bytes that a fingerprint digests: the UTF-8 bytes of the operating
/// system, of its version and of the architecture, the memory size as
/// eight little-endian bytes, and the UTF-8 bytes of the host name where
/// one is known.
pub open spec fn fingerprint_input(
    os: Seq<char>,
    os_version: Seq<char>,
    cpu_arch: Seq<char>,
    ram_gb: u64,
    hostname: Option<Seq<char>>,
) -> Seq<u8> {
    encode_utf8(os) + encode_utf8(os_version) + encode_utf8(cpu_arch) + spec_u64_to_le_bytes(ram_gb)
        + match hostname {
        Some(host) => encode_utf8(host),
        None => Seq::empty(),
    }
}

/// The fingerprint of the given attributes: the attributes themselves and
/// the SHA-256 digest of `fingerprint_input`, in lowercase hexadecimal.
pub open spec fn fingerprint_of(
    os: Seq<char>,
    os_version: Seq<char>,
    cpu_arch: Seq<char>,
    ram_gb: u64,
    hostname: Option<Seq<char>>,
) -> FingerprintView {
    FingerprintView {
        os,
        os_version,
        cpu_arch,
        ram_gb,
        hostname,
        hash: hex_lower(sha256_of(fingerprint_input(os, os_version, cpu_arch, ram_gb, hostname))),
    }
}

fn append_bytes(data: &mut Vec<u8>, more: &[u8])
    ensures
        final(data)@ == old(data)@ + more@,
{
    let ghost before = data@;
    let mut i: usize = 0;
    while i < more.len()
        invariant
            i <= more@.len(),
            data@ == before + more@.take(i as int),
        decreases more@.len() - i,
    {
        data.push(more[i]);
        assert(data@ =~= before + more@.take(i + 1));
        i += 1;
    }
    assert(more@.take(more@.len() as int) =~= more@);
}

/// Derives the fingerprint of an environment from its attributes.
pub fn compute_fingerprint(
    os: &str,
    os_version: &str,
    cpu_arch: &str,
    ram_gb: u64,
    hostname: Option<String>,
) -> (r: Fingerprint)
    ensures
        r@ == fingerprint_of(os@, os_version@, cpu_arch@, ram_gb, hostname.deep_view()),
{
    let mut data: Vec<u8> = Vec::new();
    append_bytes(&mut data, os.as_bytes());
    append_bytes(&mut data, os_version.as_bytes());
    append_bytes(&mut data, cpu_arch.as_bytes());
    let ram_bytes = u64_to_le_bytes(ram_gb);
    append_bytes(&mut data, ram_bytes.as_slice());
    match &hostname {
        Some(host) => {
            append_bytes(&mut data, host.as_str().as_bytes());
        },
        None => {},
    }
    assert(data@ =~= fingerprint_input(os@, os_version@, cpu_arch@, ram_gb, hostname.deep_view()));
    let digest = sha256(data.as_slice());
    let hash = to_hex(digest.as_slice());
    Fingerprint {
        os: String::from_str(os),
        os_version: String::from_str(os_version),
        cpu_arch: String::from_str(cpu_arch),
        ram_gb,
        hostname,
        hash,
    }
}

/// What was probed on the host, before any of it is interpreted.
#[derive(Debug)]
pub struct HostProbe {
    /// The operating system's name as the platform gives it.
    pub os: String,
    /// The CPU architecture's name as the platform gives it.
    pub arch: String,
    /// The long form of the operating system's version, if known.
    pub long_os_version: Option<String>,
    /// The short form of the operating system's version, if known.
    pub os_version: Option<String>,
    /// Total memory in KiB.
    pub total_memory: u64,
    /// The host's name, if known.
    pub host_name: Option<String>,
    /// The commands found on the host among those looked for.
    pub commands: Vec<String>,
}

/// What a [`HostProbe`] says.
pub struct HostProbeView {
    pub os: Seq<char>,
    pub arch: Seq<char>,
    pub long_os_version: Option<Seq<char>>,
    pub os_version: Option<Seq<char>>,
    pub total_memory: u64,
    pub host_name: Option<Seq<char>>,
    pub commands: Seq<Seq<char>>,
}

impl View for HostProbe {
    type V = HostProbeView;

    open spec fn view(&self) -> HostProbeView {
        HostProbeView {
            os: self.os@,
            arch: self.arch@,
            long_os_version: self.long_os_version.deep_view(),
            os_version: self.os_version.deep_view(),
            total_memory: self.total_memory,
            host_name: self.host_name.deep_view(),
            commands: self.commands.deep_view(),
        }
    }
}

/// The version to report: the long form if known, else the short form,
/// else `unknown`.
pub open spec fn reported_version(probe: HostProbeView) -> Seq<char> {
    match probe.long_os_version {
        Some(v) => v,
        None => match probe.os_version {
            Some(v) => v,
            None => "unknown"@,
        },
    }
}

/// The environment that a probe describes: names normalised, memory in
/// whole GiB, the package managers present, and the fingerprint of it all.
pub open spec fn environment_of(probe: HostProbeView) -> EnvironmentView {
    let os = normalized_os(probe.os);
    let os_version = reported_version(probe);
    let cpu_arch = normalized_arch(probe.arch);
    let ram_gb = (probe.total_memory / 1_048_576) as u64;
    EnvironmentView {
        os,
        os_version,
        cpu_arch,
        ram_gb,
        pkg_managers: managers_present(os, probe.commands),
        fingerprint: Some(fingerprint_of(os, os_version, cpu_arch, ram_gb, probe.host_name)),
    }
}

/// Puts the environment together from what was probed on the host.
pub fn detect_environment(probe: &HostProbe) -> (r: Environment)
    ensures
        r@ == environment_of(probe@),
{
    let os = normalize_os(probe.os.as_str());
    let os_version = match &probe.long_os_version {
        Some(v) => v.clone(),
        None => match &probe.os_version {
            Some(v) => v.clone(),
            None => String::from_str("unknown"),
        },
    };
    let cpu_arch = normalize_arch(probe.arch.as_str());
    let ram_gb: u64 = probe.total_memory / 1_048_576;
    let pkg_managers = detect_package_managers(os.as_str(), &probe.commands);
    let fingerprint = compute_fingerprint(
        os.as_str(),
        os_version.as_str(),
        cpu_arch.as_str(),
        ram_gb,
        clone_optional(&probe.host_name),
    );
    Environment { os, os_version, cpu_arch, ram_gb, pkg_managers, fingerprint: Some(fingerprint) }
}

/// An optional string as `{:?}` writes it.
pub open spec fn optional_debug(item: Option<Seq<char>>) -> Seq<char> {
    match item {
        Some(s) => "Some("@ + debug_quoted(s) + ")"@,
        None => "None"@,
    }
}

/// A fingerprint as `{:?}` writes it. The field `extra` is reserved for
/// attributes beyond those digested and is always absent.
pub open spec fn fingerprint_debug(f: FingerprintView) -> Seq<char> {
    "Fingerprint { os: "@ + debug_quoted(f.os) + ", os_version: "@ + debug_quoted(f.os_version)
        + ", cpu_arch: "@ + debug_quoted(f.cpu_arch) + ", ram_gb: "@ + decimal_digits(
        f.ram_gb as nat,
    ) + ", hostname: "@ + optional_debug(f.hostname) + ", extra: None, hash: "@ + debug_quoted(
        f.hash,
    ) + " }"@
}

/// An environment as `{:?}` writes it.
pub open spec fn environment_debug(e: EnvironmentView) -> Seq<char> {
    "Environment { os: "@ + debug_quoted(e.os) + ", os_version: "@ + debug_quoted(e.os_version)
        + ", cpu_arch: "@ + debug_quoted(e.cpu_arch) + ", ram_gb: "@ + decimal_digits(
        e.ram_gb as nat,
    ) + ", pkg_managers: "@ + bracketed(e.pkg_managers.map_values(|s: Seq<char>| debug_quoted(s)))
        + ", fingerprint: "@ + match e.fingerprint {
        Some(f) => "Some("@ + fingerprint_debug(f) + ")"@,
        None => "None"@,
    } + " }"@
}

/// Writes each string as `{:?}` does and the list in square brackets.
pub fn debug_list(items: &Vec<String>) -> (r: String)
    ensures
        r@ == bracketed(items.deep_view().map_values(|s: Seq<char>| debug_quoted(s))),
{
    let mut quoted: Vec<String> = Vec::new();
    let mut i: usize = 0;
    while i < items.len()
        invariant
            i <= items@.len(),
            quoted@.len() == i,
            forall|k: int| 0 <= k < i ==> quoted@[k]@ == debug_quoted(items@[k]@),
        decreases items@.len() - i,
    {
        quoted.push(debug_format(items[i].as_str()));
        i += 1;
    }
    assert(quoted.deep_view() =~= items.deep_view().map_values(|s: Seq<char>| debug_quoted(s)));
    bracket(&quoted)
}

fn append_optional(r: &mut String, item: &Option<String>)
    ensures
        final(r)@ == old(r)@ + optional_debug(item.deep_view()),
{
    let ghost head = r@;
    match item {
        Some(s) => {
            r.append("Some(");
            let quoted = debug_format(s.as_str());
            r.append(quoted.as_str());
            r.append(")");
            assert(r@ =~= head + ("Some("@ + debug_quoted(s@) + ")"@));
        },
        None => {
            r.append("None");
        },
    }
}

fn append_quoted(r: &mut String, label: &str, value: &str)
    ensures
        final(r)@ == old(r)@ + label@ + debug_quoted(value@),
{
    r.append(label);
    let quoted = debug_format(value);
    r.append(quoted.as_str());
}

impl Fingerprint {
    /// The fingerprint as `{:?}` writes it.
    pub fn debug_text(&self) -> (r: String)
        ensures
            r@ == fingerprint_debug(self@),
    {
        let mut r = String::from_str("Fingerprint { os: ");
        append_quoted(&mut r, "", self.os.as_str());
        append_quoted(&mut r, ", os_version: ", self.os_version.as_str());
        append_quoted(&mut r, ", cpu_arch: ", self.cpu_arch.as_str());
        r.append(", ram_gb: ");
        let ram = decimal(self.ram_gb);
        r.append(ram.as_str());
        r.append(", hostname: ");
        append_optional(&mut r, &self.hostname);
        append_quoted(&mut r, ", extra: None, hash: ", self.hash.as_str());
        r.append(" }");
        proof {
            reveal_strlit("");
            assert(r@ =~= fingerprint_debug(self@));
        }
        r
    }
}

impl Environment {
    /// The environment as `{:?}` writes it.
    pub fn debug_text(&self) -> (r: String)
        ensures
            r@ == environment_debug(self@),
    {
        let mut r = String::from_str("Environment { os: ");
        append_quoted(&mut r, "", self.os.as_str());
        append_quoted(&mut r, ", os_version: ", self.os_version.as_str());
        append_quoted(&mut r, ", cpu_arch: ", self.cpu_arch.as_str());
        r.append(", ram_gb: ");
        let ram = decimal(self.ram_gb);
        r.append(ram.as_str());
        r.append(", pkg_managers: ");
        let managers = debug_list(&self.pkg_managers);
        r.append(managers.as_str());
        r.append(", fingerprint: ");
        let ghost head = r@;
        match &self.fingerprint {
            Some(f) => {
                r.append("Some(");
                let text = f.debug_text();
                r.append(text.as_str());
                r.append(")");
                assert(r@ =~= head + ("Some("@ + fingerprint_debug(f@) + ")"@));
            },
            None => {
                r.append("None");
            },
        }
        r.append(" }");
        proof {
            reveal_strlit("");
            assert(r@ =~= environment_debug(self@));
        }
        r
    }
}

} // verus!
