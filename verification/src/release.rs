//! Release packaging rules: version tags, artifact names, checksums and the Homebrew formula.
use vstd::prelude::*;
use crate::text::{chars_equal, chars_of};

verus! {

/// What `semver::Version::parse` reports for `text`: `None` when it is a valid semantic
/// version, otherwise the text of the parse error.
pub uninterp spec fn semver_error(text: Seq<char>) -> Option<Seq<char>>;

/// Calls `semver::Version::parse` and keeps the error text, if any.
#[verifier::external_body]
fn parse_semver(text: &str) -> (r: Option<String>)
    ensures
        match r {
            Some(e) => semver_error(text@) == Some(e@),
            None => semver_error(text@) is None,
        },
{
    semver::Version::parse(text).err().map(|error| error.to_string())
}

/// SHA-256 of a byte string, as `sha2::Sha256` computes it.
pub uninterp spec fn sha256(data: Seq<u8>) -> Seq<u8>;

/// Calls `<sha2::Sha256 as sha2::Digest>::digest`; the digest is 32 bytes long.
#[verifier::external_body]
fn sha256_of(data: &[u8]) -> (r: Vec<u8>)
    ensures
        r@ == sha256(data@),
        r@.len() == 32,
{
    <sha2::Sha256 as sha2::Digest>::digest(data).to_vec()
}

/// A release tag is `dev` or `v` followed by a semantic version.
pub open spec fn version_check(tag: Seq<char>) -> Result<(), Seq<char>> {
    if tag == "dev"@ {
        Ok(())
    } else if tag.len() > 0 && tag[0] == 'v' {
        match semver_error(tag.skip(1)) {
            None => Ok(()),
            Some(e) => Err(e),
        }
    } else {
        Err("version must be dev or v-prefixed semantic version"@)
    }
}

fn is(s: &str, literal: &str) -> (r: bool)
    ensures
        r == (s@ == literal@),
{
    let a = chars_of(s);
    let b = chars_of(literal);
    chars_equal(&a, &b)
}

/// Check a release tag.
pub fn version(tag: &str) -> (r: Result<(), String>)
    ensures
        match r {
            Ok(()) => version_check(tag@) == Ok::<(), Seq<char>>(()),
            Err(e) => version_check(tag@) == Err::<(), Seq<char>>(e@),
        },
{
    if is(tag, "dev") {
        return Ok(());
    }
    let chars = chars_of(tag);
    if chars.len() == 0 || chars[0] != 'v' {
        return Err(String::from_str("version must be dev or v-prefixed semantic version"));
    }
    let rest = tag.substring_char(1, tag.unicode_len());
    assert(rest@ =~= tag@.skip(1));
    match parse_semver(rest) {
        None => Ok(()),
        Some(e) => Err(e),
    }
}

/// The supported release targets.
pub open spec fn supported(os: Seq<char>, arch: Seq<char>) -> bool {
    (os == "linux"@ || os == "darwin"@ || os == "windows"@) && (arch == "amd64"@ || arch == "arm64"@)
}

/// The artifact name of a target: `oflh-OS-ARCH`, with `.exe` on Windows.
pub open spec fn artifact_name(os: Seq<char>, arch: Seq<char>) -> Result<Seq<char>, Seq<char>> {
    if supported(os, arch) {
        Ok("oflh-"@ + os + "-"@ + arch + if os == "windows"@ { ".exe"@ } else { ""@ })
    } else {
        Err("unsupported target"@)
    }
}

/// The release artifact name of a target.
pub fn name(os: &str, arch: &str) -> (r: Result<String, String>)
    ensures
        match r {
            Ok(n) => artifact_name(os@, arch@) == Ok::<Seq<char>, Seq<char>>(n@),
            Err(e) => artifact_name(os@, arch@) == Err::<Seq<char>, Seq<char>>(e@),
        },
{
    let windows = is(os, "windows");
    if !((is(os, "linux") || is(os, "darwin") || windows) && (is(arch, "amd64") || is(arch, "arm64"))) {
        return Err(String::from_str("unsupported target"));
    }
    let mut out = String::from_str("oflh-");
    out.append(os);
    out.append("-");
    out.append(arch);
    out.append(if windows { ".exe" } else { "" });
    Ok(out)
}

/// Lowercase hexadecimal digit.
pub open spec fn hex_digit_char(d: nat) -> char {
    crate::ports::hex_char(d)
}

/// Two lowercase hexadecimal digits per byte.
pub open spec fn hex_bytes(b: Seq<u8>) -> Seq<char>
    decreases b.len(),
{
    if b.len() == 0 {
        Seq::empty()
    } else {
        hex_bytes(b.drop_last()) + seq![hex_digit_char((b.last() / 16) as nat), hex_digit_char((b.last() % 16) as nat)]
    }
}

fn hex_char_of(d: u8) -> (c: char)
    requires
        d < 16,
    ensures
        c == hex_digit_char(d as nat),
{
    match d {
        0 => '0',
        1 => '1',
        2 => '2',
        3 => '3',
        4 => '4',
        5 => '5',
        6 => '6',
        7 => '7',
        8 => '8',
        9 => '9',
        10 => 'a',
        11 => 'b',
        12 => 'c',
        13 => 'd',
        14 => 'e',
        _ => 'f',
    }
}

/// Bytes as lowercase hexadecimal, two digits each.
pub fn hex_text(bytes: &[u8]) -> (r: String)
    ensures
        r@ == hex_bytes(bytes@),
        r@.len() == 2 * bytes@.len(),
{
    let mut out: Vec<char> = Vec::new();
    let mut i: usize = 0;
    while i < bytes.len()
        invariant
            i <= bytes@.len(),
            out@ == hex_bytes(bytes@.take(i as int)),
            out@.len() == 2 * i,
        decreases bytes@.len() - i,
    {
        let b = bytes[i];
        out.push(hex_char_of(b / 16));
        out.push(hex_char_of(b % 16));
        assert(bytes@.take(i as int + 1).drop_last() =~= bytes@.take(i as int));
        i = i + 1;
    }
    assert(bytes@.take(bytes@.len() as int) =~= bytes@);
    crate::text::to_string(&out)
}

/// The SHA-256 digest of data in lowercase hexadecimal.
pub fn hex_digest(data: &[u8]) -> (r: String)
    ensures
        r@ == hex_bytes(sha256(data@)),
        r@.len() == 64,
{
    let hash = sha256_of(data);
    hex_text(&hash)
}

/// A checksum is 64 lowercase hexadecimal digits.
pub open spec fn valid_checksum(sha: Seq<char>) -> bool {
    sha.len() == 64 && forall|i: int| 0 <= i < sha.len() ==> ('0' <= #[trigger] sha[i] <= '9' || 'a' <= sha[i] <= 'f')
}

fn checksum_ok(sha: &str) -> (r: bool)
    ensures
        r == valid_checksum(sha@),
{
    let c = chars_of(sha);
    if c.len() != 64 {
        return false;
    }
    let mut i: usize = 0;
    while i < c.len()
        invariant
            i <= c@.len(),
            c@ == sha@,
            forall|k: int| 0 <= k < i ==> ('0' <= #[trigger] c@[k] <= '9' || 'a' <= c@[k] <= 'f'),
        decreases c@.len() - i,
    {
        let x = c[i];
        if !(('0' <= x && x <= '9') || ('a' <= x && x <= 'f')) {
            return false;
        }
        i = i + 1;
    }
    true
}

/// The checksum recorded for an artifact name: the first entry with that name.
pub open spec fn checksum_of(sums: Seq<(Seq<char>, Seq<char>)>, name: Seq<char>) -> Option<Seq<char>>
    decreases sums.len(),
{
    if sums.len() == 0 {
        None
    } else if sums[0].0 == name {
        Some(sums[0].1)
    } else {
        checksum_of(sums.drop_first(), name)
    }
}

/// The artifact names are in strictly ascending order, so each occurs once, as the keys of
/// an ordered map are.
pub open spec fn sorted_names(sums: Seq<(Seq<char>, Seq<char>)>) -> bool {
    forall|i: int, j: int| 0 <= i < j < sums.len() ==> crate::ranking::order_text(sums[i].0, sums[j].0) < 0
}

/// The pairs as character sequences.
pub open spec fn sums_view(sums: Seq<(String, String)>) -> Seq<(Seq<char>, Seq<char>)> {
    sums.map_values(|p: (String, String)| (p.0@, p.1@))
}

fn lookup(sums: &[(String, String)], name: &str) -> (r: Option<String>)
    ensures
        match r {
            Some(s) => checksum_of(sums_view(sums@), name@) == Some(s@),
            None => checksum_of(sums_view(sums@), name@) is None,
        },
{
    let ghost v = sums_view(sums@);
    let mut i: usize = 0;
    assert(v.skip(0) =~= v);
    while i < sums.len()
        invariant
            i <= sums@.len(),
            v == sums_view(sums@),
            checksum_of(v, name@) == checksum_of(v.skip(i as int), name@),
        decreases sums@.len() - i,
    {
        assert(v.skip(i as int).drop_first() =~= v.skip(i + 1));
        assert(v.skip(i as int)[0] == (sums@[i as int].0@, sums@[i as int].1@));
        if is(sums[i].0.as_str(), name) {
            return Some(sums[i].1.clone());
        }
        i = i + 1;
    }
    None
}

/// The Homebrew block of one architecture.
pub open spec fn arch_block(brewarch: Seq<char>, base: Seq<char>, name: Seq<char>, sha: Seq<char>) -> Seq<char> {
    "    on_"@ + brewarch + " do\n      url \""@ + base + "/"@ + name + "\"\n      sha256 \""@ + sha + "\"\n    end\n"@
}

/// The download base: given, or the GitHub release of the tag.
pub open spec fn base_url(tag: Seq<char>, base: Option<Seq<char>>) -> Seq<char> {
    match base {
        Some(b) => b,
        None => "https://github.com/karimz1/open-file-lock-handle/releases/download/"@ + tag,
    }
}

/// The URL contains a quote, a line break or a backslash.
pub open spec fn unsafe_url(url: Seq<char>) -> bool {
    exists|i: int| 0 <= i < url.len() && (url[i] == '"' || url[i] == '\n' || url[i] == '\r' || url[i] == '\\')
}

/// The checksum of a target's artifact, checked.
pub open spec fn target_sha(sums: Seq<(Seq<char>, Seq<char>)>, os: Seq<char>, arch: Seq<char>) -> Result<Seq<char>, Seq<char>> {
    match artifact_name(os, arch) {
        Err(e) => Err(e),
        Ok(n) => match checksum_of(sums, n) {
            None => Err("missing artifact checksum"@),
            Some(sha) => if valid_checksum(sha) { Ok(sha) } else { Err("invalid checksum"@) },
        },
    }
}

/// The Homebrew formula of a release: four architecture blocks, in the order darwin/arm64,
/// darwin/amd64, linux/arm64, linux/amd64, each with its URL and checksum.
pub open spec fn formula_view(tag: Seq<char>, sums: Seq<(Seq<char>, Seq<char>)>, base: Option<Seq<char>>) -> Result<Seq<char>, Seq<char>> {
    match version_check(tag) {
        Err(e) => Err(e),
        Ok(()) => if tag == "dev"@ {
            Err("Homebrew requires a tagged release"@)
        } else if unsafe_url(base_url(tag, base)) {
            Err("invalid base URL"@)
        } else {
            let b = base_url(tag, base);
            match (target_sha(sums, "darwin"@, "arm64"@), target_sha(sums, "darwin"@, "amd64"@), target_sha(sums, "linux"@, "arm64"@), target_sha(sums, "linux"@, "amd64"@)) {
                (Err(e), _, _, _) => Err(e),
                (Ok(_), Err(e), _, _) => Err(e),
                (Ok(_), Ok(_), Err(e), _) => Err(e),
                (Ok(_), Ok(_), Ok(_), Err(e)) => Err(e),
                (Ok(s1), Ok(s2), Ok(s3), Ok(s4)) => Ok(
                    "class Oflh < Formula\n  desc \"Find processes using files, directories, and open handles\"\n  homepage \"https://github.com/karimz1/open-file-lock-handle\"\n  version \""@
                    + tag.skip(1) + "\"\n  license \"MIT\"\n\n"@
                    + "  on_macos do\n"@
                    + arch_block("arm"@, b, "oflh-darwin-arm64"@, s1) + arch_block("intel"@, b, "oflh-darwin-amd64"@, s2)
                    + "  end\n\n"@
                    + "  on_linux do\n"@
                    + arch_block("arm"@, b, "oflh-linux-arm64"@, s3) + arch_block("intel"@, b, "oflh-linux-amd64"@, s4)
                    + "  end\n\n"@
                    + "  def install\n    bin.install Dir[\"oflh-*\"][0] => \"oflh\"\n  end\n\n  test do\n    assert_match \"oflh #{version}\", shell_output(\"#{bin}/oflh --version\")\n  end\nend\n"@,
                ),
            }
        },
    }
}

fn url_unsafe(url: &str) -> (r: bool)
    ensures
        r == unsafe_url(url@),
{
    let c = chars_of(url);
    let mut i: usize = 0;
    while i < c.len()
        invariant
            i <= c@.len(),
            c@ == url@,
            forall|k: int| 0 <= k < i ==> !(c@[k] == '"' || c@[k] == '\n' || c@[k] == '\r' || c@[k] == '\\'),
        decreases c@.len() - i,
    {
        let x = c[i];
        if x == '"' || x == '\n' || x == '\r' || x == '\\' {
            return true;
        }
        i = i + 1;
    }
    false
}

fn checked_sha(sums: &[(String, String)], os: &str, arch: &str) -> (r: Result<String, String>)
    ensures
        match r {
            Ok(s) => target_sha(sums_view(sums@), os@, arch@) == Ok::<Seq<char>, Seq<char>>(s@),
            Err(e) => target_sha(sums_view(sums@), os@, arch@) == Err::<Seq<char>, Seq<char>>(e@),
        },
{
    let n = match name(os, arch) {
        Ok(n) => n,
        Err(e) => {
            return Err(e);
        },
    };
    match lookup(sums, n.as_str()) {
        None => Err(String::from_str("missing artifact checksum")),
        Some(sha) => if checksum_ok(sha.as_str()) {
            Ok(sha)
        } else {
            Err(String::from_str("invalid checksum"))
        },
    }
}

/// The Homebrew formula for a tagged release, from the artifact checksums.
pub fn formula(tag: &str, sums: &[(String, String)], base: Option<&str>) -> (r: Result<String, String>)
    requires
        sorted_names(sums_view(sums@)),
    ensures
        match r {
            Ok(f) => formula_view(tag@, sums_view(sums@), match base { Some(b) => Some(b@), None => None }) == Ok::<Seq<char>, Seq<char>>(f@),
            Err(e) => formula_view(tag@, sums_view(sums@), match base { Some(b) => Some(b@), None => None }) == Err::<Seq<char>, Seq<char>>(e@),
        },
{
    let ghost bv = match base { Some(b) => Some(b@), None => None };
    match version(tag) {
        Err(e) => {
            return Err(e);
        },
        Ok(()) => {},
    }
    if is(tag, "dev") {
        return Err(String::from_str("Homebrew requires a tagged release"));
    }
    let b = match base {
        Some(b) => String::from_str(b),
        None => {
            let mut u = String::from_str("https://github.com/karimz1/open-file-lock-handle/releases/download/");
            u.append(tag);
            u
        },
    };
    assert(b@ == base_url(tag@, bv));
    if url_unsafe(b.as_str()) {
        return Err(String::from_str("invalid base URL"));
    }
    let s1 = match checked_sha(sums, "darwin", "arm64") {
        Ok(s) => s,
        Err(e) => {
            return Err(e);
        },
    };
    let s2 = match checked_sha(sums, "darwin", "amd64") {
        Ok(s) => s,
        Err(e) => {
            return Err(e);
        },
    };
    let s3 = match checked_sha(sums, "linux", "arm64") {
        Ok(s) => s,
        Err(e) => {
            return Err(e);
        },
    };
    let s4 = match checked_sha(sums, "linux", "amd64") {
        Ok(s) => s,
        Err(e) => {
            return Err(e);
        },
    };
    let version_text = tag.substring_char(1, tag.unicode_len());
    let mut out = String::from_str(
        "class Oflh < Formula\n  desc \"Find processes using files, directories, and open handles\"\n  homepage \"https://github.com/karimz1/open-file-lock-handle\"\n  version \"",
    );
    out.append(version_text);
    out.append("\"\n  license \"MIT\"\n\n");
    out.append("  on_macos do\n");
    push_block(&mut out, "arm", b.as_str(), "oflh-darwin-arm64", s1.as_str());
    push_block(&mut out, "intel", b.as_str(), "oflh-darwin-amd64", s2.as_str());
    out.append("  end\n\n");
    out.append("  on_linux do\n");
    push_block(&mut out, "arm", b.as_str(), "oflh-linux-arm64", s3.as_str());
    push_block(&mut out, "intel", b.as_str(), "oflh-linux-amd64", s4.as_str());
    out.append("  end\n\n");
    out.append(
        "  def install\n    bin.install Dir[\"oflh-*\"][0] => \"oflh\"\n  end\n\n  test do\n    assert_match \"oflh #{version}\", shell_output(\"#{bin}/oflh --version\")\n  end\nend\n",
    );
    assert(version_text@ =~= tag@.skip(1));
    Ok(out)
}

fn push_block(out: &mut String, brewarch: &str, base: &str, name: &str, sha: &str)
    ensures
        final(out)@ == old(out)@ + arch_block(brewarch@, base@, name@, sha@),
{
    out.append("    on_");
    out.append(brewarch);
    out.append(" do\n      url \"");
    out.append(base);
    out.append("/");
    out.append(name);
    out.append("\"\n      sha256 \"");
    out.append(sha);
    out.append("\"\n    end\n");
}

// ----- the release tool's command line and artifacts -----

/// The artifact names of every supported target, in release order.
pub open spec fn release_names() -> Seq<Seq<char>> {
    seq![
        "oflh-linux-amd64"@,
        "oflh-linux-arm64"@,
        "oflh-darwin-amd64"@,
        "oflh-darwin-arm64"@,
        "oflh-windows-amd64.exe"@,
        "oflh-windows-arm64.exe"@
    ]
}

/// The name of a supported target's artifact.
fn target_name(os: &str, arch: &str) -> (r: String)
    requires
        supported(os@, arch@),
    ensures
        artifact_name(os@, arch@) == Ok::<Seq<char>, Seq<char>>(r@),
{
    match name(os, arch) {
        Ok(n) => n,
        Err(e) => {
            assert(false);
            e
        },
    }
}

/// The artifact names of every supported target.
pub fn artifact_names() -> (r: Vec<String>)
    ensures
        r@.map_values(|n: String| n@) == release_names(),
{
    proof {
        reveal_strlit("");
        assert(""@ =~= Seq::<char>::empty());
    }
    let mut out: Vec<String> = Vec::new();
    out.push(target_name("linux", "amd64"));
    out.push(target_name("linux", "arm64"));
    out.push(target_name("darwin", "amd64"));
    out.push(target_name("darwin", "arm64"));
    out.push(target_name("windows", "amd64"));
    out.push(target_name("windows", "arm64"));
    proof {
        reveal_strlit("linux");
        reveal_strlit("darwin");
        reveal_strlit("windows");
        reveal_strlit("amd64");
        reveal_strlit("arm64");
        reveal_strlit("oflh-");
        reveal_strlit("-");
        reveal_strlit(".exe");
        reveal_strlit("oflh-linux-amd64");
        reveal_strlit("oflh-linux-arm64");
        reveal_strlit("oflh-darwin-amd64");
        reveal_strlit("oflh-darwin-arm64");
        reveal_strlit("oflh-windows-amd64.exe");
        reveal_strlit("oflh-windows-arm64.exe");
        assert(out@[0]@ =~= "oflh-linux-amd64"@);
        assert(out@[1]@ =~= "oflh-linux-arm64"@);
        assert(out@[2]@ =~= "oflh-darwin-amd64"@);
        assert(out@[3]@ =~= "oflh-darwin-arm64"@);
        assert(out@[4]@ =~= "oflh-windows-amd64.exe"@);
        assert(out@[5]@ =~= "oflh-windows-arm64.exe"@);
    }
    assert(out@.map_values(|n: String| n@) =~= release_names());
    out
}

/// A file that may stand in the release directory: an artifact or the checksum list.
pub open spec fn expected_file(name: Seq<char>) -> bool {
    name == "checksums.txt"@ || release_names().contains(name)
}

/// The first file of the release directory that does not belong there, in the order listed.
pub open spec fn stray_view(present: Seq<Seq<char>>) -> Option<Seq<char>>
    decreases present.len(),
{
    if present.len() == 0 {
        None
    } else if !expected_file(present[0]) {
        Some(present[0])
    } else {
        stray_view(present.drop_first())
    }
}

/// The first listed file that is neither an artifact nor the checksum list, if any.
pub fn stray_artifact(present: &Vec<String>) -> (r: Option<String>)
    ensures
        match r {
            Some(n) => stray_view(present@.map_values(|n: String| n@)) == Some(n@),
            None => stray_view(present@.map_values(|n: String| n@)) is None,
        },
{
    let ghost v = present@.map_values(|n: String| n@);
    let names = artifact_names();
    let mut i: usize = 0;
    assert(v.skip(0) =~= v);
    while i < present.len()
        invariant
            i <= present@.len(),
            v == present@.map_values(|n: String| n@),
            names@.map_values(|n: String| n@) == release_names(),
            stray_view(v) == stray_view(v.skip(i as int)),
        decreases present@.len() - i,
    {
        assert(v.skip(i as int).drop_first() =~= v.skip(i + 1));
        assert(v.skip(i as int)[0] == present@[i as int]@);
        let candidate = present[i].as_str();
        let mut known = is(candidate, "checksums.txt");
        let mut k: usize = 0;
        while k < names.len()
            invariant
                k <= names@.len(),
                names@.map_values(|n: String| n@) == release_names(),
                known == (candidate@ == "checksums.txt"@ || exists|j: int| 0 <= j < k && release_names()[j] == candidate@),
            decreases names@.len() - k,
        {
            assert(names@.map_values(|n: String| n@)[k as int] == names@[k as int]@);
            if is(candidate, names[k].as_str()) {
                known = true;
            }
            k = k + 1;
        }
        assert(known == expected_file(candidate@)) by {
            if release_names().contains(candidate@) {
                let j = choose|j: int| 0 <= j < release_names().len() && release_names()[j] == candidate@;
                assert(release_names()[j] == candidate@);
            }
        }
        if !known {
            return Some(present[i].clone());
        }
        i = i + 1;
    }
    None
}

/// The checksum list: one line per artifact, the digest, two spaces and the name.
pub open spec fn checksums_view(sums: Seq<(Seq<char>, Seq<char>)>) -> Seq<char>
    decreases sums.len(),
{
    if sums.len() == 0 {
        Seq::empty()
    } else {
        checksums_view(sums.drop_last()) + sums.last().1 + "  "@ + sums.last().0 + "\n"@
    }
}

/// The text of `checksums.txt` for artifact names paired with their digests, in name order.
pub fn checksums_text(sums: &[(String, String)]) -> (r: String)
    requires
        sorted_names(sums_view(sums@)),
    ensures
        r@ == checksums_view(sums_view(sums@)),
{
    let ghost v = sums_view(sums@);
    let mut out = String::new();
    let mut i: usize = 0;
    while i < sums.len()
        invariant
            i <= sums@.len(),
            v == sums_view(sums@),
            out@ == checksums_view(v.take(i as int)),
        decreases sums@.len() - i,
    {
        out.append(sums[i].1.as_str());
        out.append("  ");
        out.append(sums[i].0.as_str());
        out.append("\n");
        assert(v.take(i as int + 1).drop_last() =~= v.take(i as int));
        assert(v.take(i as int + 1).last() == (sums@[i as int].0@, sums@[i as int].1@));
        i = i + 1;
    }
    assert(v.take(sums@.len() as int) =~= v);
    out
}

/// The options the release tool knows.
pub open spec fn known_option(key: Seq<char>) -> bool {
    key == "--version"@ || key == "--os"@ || key == "--arch"@ || key == "--binary"@ || key == "--output"@
        || key == "--formula"@ || key == "--base-url"@
}

/// Options from argument `i` on, after `acc`: each a known key followed by its value, each
/// key at most once.
pub open spec fn options_from(args: Seq<Seq<char>>, i: int, acc: Seq<(Seq<char>, Seq<char>)>) -> Result<Seq<(Seq<char>, Seq<char>)>, Seq<char>>
    decreases args.len() - i,
{
    if i < 0 || i >= args.len() {
        Ok(acc)
    } else if !known_option(args[i]) {
        Err("unknown option "@ + args[i])
    } else if i + 1 >= args.len() {
        Err("option requires a value"@)
    } else if checksum_of(acc, args[i]) is Some {
        Err("duplicate option"@)
    } else {
        options_from(args, i + 2, acc.push((args[i], args[i + 1])))
    }
}

/// What the release tool is asked to do.
#[derive(Clone, Copy, Debug, PartialEq, Eq, Structural)]
pub enum ReleaseAction {
    /// Only check the version tag.
    Validate,
    /// Copy an executable into the output directory under its artifact name.
    Package,
    /// Check the output directory, write the checksum list and produce the formula.
    Assemble,
}

/// A checked request of the release tool.
#[derive(Debug)]
pub struct ReleaseRequest {
    pub action: ReleaseAction,
    pub tag: String,
    /// The output directory, `dist` unless given.
    pub output: String,
    /// For packaging: the executable, its OS and its architecture.
    pub binary: Option<String>,
    pub os: Option<String>,
    pub arch: Option<String>,
    /// For assembling: where to write the formula, and the download base.
    pub formula: Option<String>,
    pub base: Option<String>,
}

/// The abstract content of a release request.
pub struct ReleaseRequestView {
    pub action: ReleaseAction,
    pub tag: Seq<char>,
    pub output: Seq<char>,
    pub binary: Option<Seq<char>>,
    pub os: Option<Seq<char>>,
    pub arch: Option<Seq<char>>,
    pub formula: Option<Seq<char>>,
    pub base: Option<Seq<char>>,
}

/// The view of an optional string.
pub open spec fn text_option(s: Option<String>) -> Option<Seq<char>> {
    match s {
        Some(t) => Some(t@),
        None => None,
    }
}

impl View for ReleaseRequest {
    type V = ReleaseRequestView;

    open spec fn view(&self) -> ReleaseRequestView {
        ReleaseRequestView {
            action: self.action,
            tag: self.tag@,
            output: self.output@,
            binary: text_option(self.binary),
            os: text_option(self.os),
            arch: text_option(self.arch),
            formula: text_option(self.formula),
            base: text_option(self.base),
        }
    }
}

/// The request the release tool's arguments make: the action first, then options; the
/// version tag is required and checked; packaging requires the executable, OS and
/// architecture, in that order.
pub open spec fn request_view(args: Seq<Seq<char>>) -> Result<ReleaseRequestView, Seq<char>> {
    if args.len() == 0 {
        Err("usage: cargo xtask validate|package|assemble --version TAG [options]"@)
    } else {
        match options_from(args, 1, Seq::empty()) {
            Err(e) => Err(e),
            Ok(opts) => match checksum_of(opts, "--version"@) {
                None => Err("missing --version"@),
                Some(tag) => match version_check(tag) {
                    Err(e) => Err(e),
                    Ok(()) => {
                        let output = match checksum_of(opts, "--output"@) {
                            Some(o) => o,
                            None => "dist"@,
                        };
                        let plain = ReleaseRequestView {
                            action: ReleaseAction::Validate,
                            tag,
                            output,
                            binary: None,
                            os: None,
                            arch: None,
                            formula: None,
                            base: None,
                        };
                        let action = args[0];
                        if action == "validate"@ {
                            Ok(plain)
                        } else if action == "package"@ {
                            match (checksum_of(opts, "--binary"@), checksum_of(opts, "--os"@), checksum_of(opts, "--arch"@)) {
                                (None, _, _) => Err("missing --binary"@),
                                (Some(_), None, _) => Err("missing --os"@),
                                (Some(_), Some(_), None) => Err("missing --arch"@),
                                (Some(b), Some(o), Some(a)) => Ok(
                                    ReleaseRequestView { action: ReleaseAction::Package, binary: Some(b), os: Some(o), arch: Some(a), ..plain },
                                ),
                            }
                        } else if action == "assemble"@ {
                            Ok(
                                ReleaseRequestView {
                                    action: ReleaseAction::Assemble,
                                    formula: checksum_of(opts, "--formula"@),
                                    base: checksum_of(opts, "--base-url"@),
                                    ..plain
                                },
                            )
                        } else {
                            Err("unknown action"@)
                        }
                    },
                },
            },
        }
    }
}

/// Whether the release tool knows an option.
fn known(key: &str) -> (r: bool)
    ensures
        r == known_option(key@),
{
    is(key, "--version") || is(key, "--os") || is(key, "--arch") || is(key, "--binary") || is(key, "--output")
        || is(key, "--formula") || is(key, "--base-url")
}

/// The options of the release tool's arguments after the action.
fn options(args: &Vec<String>) -> (r: Result<Vec<(String, String)>, String>)
    requires
        args@.len() >= 1,
    ensures
        match r {
            Ok(o) => options_from(args@.map_values(|a: String| a@), 1, Seq::empty()) == Ok::<Seq<(Seq<char>, Seq<char>)>, Seq<char>>(sums_view(o@)),
            Err(e) => options_from(args@.map_values(|a: String| a@), 1, Seq::empty()) == Err::<Seq<(Seq<char>, Seq<char>)>, Seq<char>>(e@),
        },
{
    let ghost v = args@.map_values(|a: String| a@);
    let mut out: Vec<(String, String)> = Vec::new();
    let mut i: usize = 1;
    assert(sums_view(out@) =~= Seq::<(Seq<char>, Seq<char>)>::empty());
    while i < args.len()
        invariant
            1 <= i,
            v == args@.map_values(|a: String| a@),
            options_from(v, 1, Seq::empty()) == options_from(v, i as int, sums_view(out@)),
        decreases args@.len() - i,
    {
        let key = args[i].as_str();
        assert(v[i as int] == key@);
        if !known(key) {
            let mut e = String::from_str("unknown option ");
            e.append(key);
            return Err(e);
        }
        if i + 1 >= args.len() {
            return Err(String::from_str("option requires a value"));
        }
        if lookup(out.as_slice(), key).is_some() {
            return Err(String::from_str("duplicate option"));
        }
        assert(v[i + 1] == args@[i + 1]@);
        let ghost before = sums_view(out@);
        out.push((args[i].clone(), args[i + 1].clone()));
        assert(sums_view(out@) =~= before.push((v[i as int], v[i + 1])));
        i = i + 2;
    }
    Ok(out)
}

/// Check the release tool's arguments: the action, then options with their values.
pub fn release_request(args: &Vec<String>) -> (r: Result<ReleaseRequest, String>)
    ensures
        match r {
            Ok(q) => request_view(args@.map_values(|a: String| a@)) == Ok::<ReleaseRequestView, Seq<char>>(q@),
            Err(e) => request_view(args@.map_values(|a: String| a@)) == Err::<ReleaseRequestView, Seq<char>>(e@),
        },
{
    let ghost v = args@.map_values(|a: String| a@);
    if args.len() == 0 {
        return Err(String::from_str("usage: cargo xtask validate|package|assemble --version TAG [options]"));
    }
    let opts = match options(args) {
        Ok(o) => o,
        Err(e) => {
            return Err(e);
        },
    };
    let tag = match lookup(opts.as_slice(), "--version") {
        Some(t) => t,
        None => {
            return Err(String::from_str("missing --version"));
        },
    };
    match version(tag.as_str()) {
        Err(e) => {
            return Err(e);
        },
        Ok(()) => {},
    }
    let output = match lookup(opts.as_slice(), "--output") {
        Some(o) => o,
        None => String::from_str("dist"),
    };
    let action = args[0].as_str();
    assert(v[0] == action@);
    if is(action, "validate") {
        return Ok(ReleaseRequest {
            action: ReleaseAction::Validate,
            tag,
            output,
            binary: None,
            os: None,
            arch: None,
            formula: None,
            base: None,
        });
    }
    if is(action, "package") {
        let binary = match lookup(opts.as_slice(), "--binary") {
            Some(b) => b,
            None => {
                return Err(String::from_str("missing --binary"));
            },
        };
        let os = match lookup(opts.as_slice(), "--os") {
            Some(o) => o,
            None => {
                return Err(String::from_str("missing --os"));
            },
        };
        let arch = match lookup(opts.as_slice(), "--arch") {
            Some(a) => a,
            None => {
                return Err(String::from_str("missing --arch"));
            },
        };
        return Ok(ReleaseRequest {
            action: ReleaseAction::Package,
            tag,
            output,
            binary: Some(binary),
            os: Some(os),
            arch: Some(arch),
            formula: None,
            base: None,
        });
    }
    if is(action, "assemble") {
        return Ok(ReleaseRequest {
            action: ReleaseAction::Assemble,
            tag,
            output,
            binary: None,
            os: None,
            arch: None,
            formula: lookup(opts.as_slice(), "--formula"),
            base: lookup(opts.as_slice(), "--base-url"),
        });
    }
    Err(String::from_str("unknown action"))
}

} // verus!
