//! Release version comparison and the texts used to fetch and install an update.
use crate::text::{
    chars_of, decimal, lemma_decimal_reads_back, lemma_parse_decimal, lemma_split_on_append,
    lemma_split_on_separator, parse_unsigned, parse_unsigned_range, push_str, split_on, split_ranges,
};
use vstd::prelude::*;

verus! {

pub const UPDATE_REPO: &'static str = "chamarawickramarathne-spec/Data-tracker";

pub const UPDATE_EXE_NAME: &'static str = "data-tracker.exe";

/// The running version and, when a newer release exists, its version.
pub struct UpdateInfo {
    pub current: String,
    pub latest: Option<String>,
}

/// `major.minor.patch`: exactly three dot-separated parts, each an unsigned
/// 64-bit number as `str::parse` reads it.
pub open spec fn semver(s: Seq<char>) -> Option<(nat, nat, nat)> {
    let parts = split_on(s, '.');
    if parts.len() != 3 {
        None
    } else {
        match (
            parse_unsigned(parts[0], u64::MAX as nat),
            parse_unsigned(parts[1], u64::MAX as nat),
            parse_unsigned(parts[2], u64::MAX as nat),
        ) {
            (Some(a), Some(b), Some(c)) => Some((a, b, c)),
            _ => None,
        }
    }
}

/// Lexicographic comparison of version triples.
pub open spec fn triple_gt(x: (nat, nat, nat), y: (nat, nat, nat)) -> bool {
    x.0 > y.0 || (x.0 == y.0 && (x.1 > y.1 || (x.1 == y.1 && x.2 > y.2)))
}

/// `a` is a newer version than `b`; false when either does not parse.
pub open spec fn newer_version(a: Seq<char>, b: Seq<char>) -> bool {
    match (semver(a), semver(b)) {
        (Some(x), Some(y)) => triple_gt(x, y),
        _ => false,
    }
}

/// A release tag without its leading `v`, if it has one.
pub open spec fn tag_version(tag: Seq<char>) -> Seq<char> {
    if tag.len() > 0 && tag[0] == 'v' {
        tag.drop_first()
    } else {
        tag
    }
}

/// Parses a `major.minor.patch` version.
pub fn parse_semver(version: &str) -> (r: Option<(u64, u64, u64)>)
    ensures
        match semver(version@) {
            Some((a, b, c)) => r == Some((a as u64, b as u64, c as u64)),
            None => r is None,
        },
{
    let v = chars_of(version);
    let parts = split_ranges(&v, '.');
    if parts.len() != 3 {
        return None;
    }
    let a = parse_unsigned_range(&v, parts[0].0, parts[0].1, u64::MAX);
    let b = parse_unsigned_range(&v, parts[1].0, parts[1].1, u64::MAX);
    let c = parse_unsigned_range(&v, parts[2].0, parts[2].1, u64::MAX);
    match (a, b, c) {
        (Some(a), Some(b), Some(c)) => Some((a, b, c)),
        _ => None,
    }
}

/// Whether version `a` is strictly newer than version `b`.
pub fn version_gt(a: &str, b: &str) -> (r: bool)
    ensures
        r == newer_version(a@, b@),
{
    match (parse_semver(a), parse_semver(b)) {
        (Some(x), Some(y)) => x.0 > y.0 || (x.0 == y.0 && (x.1 > y.1 || (x.1 == y.1 && x.2 > y.2))),
        _ => false,
    }
}

pub open spec fn http_error_text(status: Seq<char>) -> Seq<char> {
    "Update server returned HTTP "@ + status + " (no releases yet?)"@
}

pub open spec fn unexpected_url_text() -> Seq<char> {
    "Update server returned an unexpected URL"@
}

/// The answer of an update check, from what the release server replied: whether
/// the status was a success (with its text, such as `404 Not Found`) and the last
/// path segment of the URL that `/releases/latest` redirected to.
pub fn check_release(
    current: String,
    status_ok: bool,
    status: &str,
    last_segment: Option<String>,
) -> (r: Result<UpdateInfo, String>)
    ensures
        !status_ok ==> (r matches Err(e) && e@ == http_error_text(status@)),
        status_ok && last_segment is None ==> (r matches Err(e) && e@ == unexpected_url_text()),
        status_ok && last_segment is Some ==> (r matches Ok(info) && info.current@ == current@ && {
            let latest = tag_version(last_segment->0@);
            if newer_version(latest, current@) {
                (info.latest matches Some(l) && l@ == latest)
            } else {
                info.latest is None
            }
        }),
{
    if !status_ok {
        let mut e = String::new();
        push_str(&mut e, "Update server returned HTTP ");
        push_str(&mut e, status);
        push_str(&mut e, " (no releases yet?)");
        proof {
            assert(e@ =~= http_error_text(status@));
        }
        return Err(e);
    }
    match last_segment {
        None => Err(String::from_str("Update server returned an unexpected URL")),
        Some(tag) => {
            let t = chars_of(tag.as_str());
            let mut latest = String::new();
            if t.len() > 0 && t[0] == 'v' {
                crate::text::push_chars(&mut latest, &t, 1, t.len());
                assert(latest@ =~= tag_version(tag@));
            } else {
                crate::text::push_chars(&mut latest, &t, 0, t.len());
                assert(latest@ =~= tag_version(tag@));
            }
            if version_gt(latest.as_str(), current.as_str()) {
                Ok(UpdateInfo { current, latest: Some(latest) })
            } else {
                Ok(UpdateInfo { current, latest: None })
            }
        },
    }
}

pub open spec fn latest_release_url_text(repo: Seq<char>) -> Seq<char> {
    "https://github.com/"@ + repo + "/releases/latest"@
}

pub open spec fn release_asset_url_text(repo: Seq<char>, version: Seq<char>) -> Seq<char> {
    "https://github.com/"@ + repo + "/releases/download/v"@ + version + "/"@ + UPDATE_EXE_NAME@
}

/// The address that redirects to the newest release of `repo`.
pub fn latest_release_url(repo: &str) -> (r: String)
    ensures
        r@ == latest_release_url_text(repo@),
{
    let mut r = String::new();
    push_str(&mut r, "https://github.com/");
    push_str(&mut r, repo);
    push_str(&mut r, "/releases/latest");
    assert(r@ =~= latest_release_url_text(repo@));
    r
}

/// The download address of the executable of release `version` of `repo`.
pub fn release_asset_url(repo: &str, version: &str) -> (r: String)
    ensures
        r@ == release_asset_url_text(repo@, version@),
{
    let mut r = String::new();
    push_str(&mut r, "https://github.com/");
    push_str(&mut r, repo);
    push_str(&mut r, "/releases/download/v");
    push_str(&mut r, version);
    push_str(&mut r, "/");
    push_str(&mut r, UPDATE_EXE_NAME);
    assert(r@ =~= release_asset_url_text(repo@, version@));
    r
}

/// The name under which a downloaded executable waits beside the running one:
/// the running executable's file name (or the default name) with `.new` appended.
pub fn staged_file_name(exe_file_name: Option<&str>) -> (r: String)
    ensures
        r@ == match exe_file_name {
            Some(n) => n@,
            None => UPDATE_EXE_NAME@,
        } + ".new"@,
{
    let mut r = String::new();
    match exe_file_name {
        Some(n) => push_str(&mut r, n),
        None => push_str(&mut r, UPDATE_EXE_NAME),
    }
    push_str(&mut r, ".new");
    r
}

pub open spec fn quoted(s: Seq<char>) -> Seq<char> {
    "\""@ + s + "\""@
}

/// The batch script that waits for the running executable to exit, replaces it
/// with the staged one, starts it and deletes itself.
pub open spec fn update_script_text(exe: Seq<char>, staged: Seq<char>, script: Seq<char>) -> Seq<
    char,
> {
    "@echo off\r\ntimeout /t 2 /nobreak >nul\r\n:wait\r\ndel /q "@ + quoted(exe) + " >nul 2>&1\r\nif exist "@
        + quoted(exe) + " ( timeout /t 1 /nobreak >nul & goto wait )\r\nmove /y "@ + quoted(staged)
        + " "@ + quoted(exe) + " >nul\r\nstart \"\" "@ + quoted(exe) + "\r\ndel /q "@ + quoted(
        script,
    ) + " >nul 2>&1\r\n"@
}

fn push_quoted(out: &mut String, s: &str)
    ensures
        final(out)@ == old(out)@ + quoted(s@),
{
    push_str(out, "\"");
    push_str(out, s);
    push_str(out, "\"");
    assert(out@ =~= old(out)@ + quoted(s@));
}

/// Builds the update script for the given executable, staged file and script paths.
pub fn update_script(exe: &str, staged: &str, script: &str) -> (r: String)
    ensures
        r@ == update_script_text(exe@, staged@, script@),
{
    let mut r = String::new();
    push_str(&mut r, "@echo off\r\ntimeout /t 2 /nobreak >nul\r\n:wait\r\ndel /q ");
    push_quoted(&mut r, exe);
    push_str(&mut r, " >nul 2>&1\r\nif exist ");
    push_quoted(&mut r, exe);
    push_str(&mut r, " ( timeout /t 1 /nobreak >nul & goto wait )\r\nmove /y ");
    push_quoted(&mut r, staged);
    push_str(&mut r, " ");
    push_quoted(&mut r, exe);
    push_str(&mut r, " >nul\r\nstart \"\" ");
    push_quoted(&mut r, exe);
    push_str(&mut r, "\r\ndel /q ");
    push_quoted(&mut r, script);
    push_str(&mut r, " >nul 2>&1\r\n");
    assert(r@ =~= update_script_text(exe@, staged@, script@));
    r
}


/// Law: "newer than" is a strict order on versions — no version is newer than
/// itself, of two versions at most one is newer than the other, and it is
/// transitive.
pub proof fn law_newer_version_strict_order(a: Seq<char>, b: Seq<char>, c: Seq<char>)
    ensures
        !newer_version(a, a),
        newer_version(a, b) ==> !newer_version(b, a),
        newer_version(a, b) && newer_version(b, c) ==> newer_version(a, c),
{
}


/// Law: a version written as three decimal numbers separated by dots reads
/// back as those numbers.
pub proof fn law_version_text_reads_back(a: u64, b: u64, c: u64)
    ensures
        semver(decimal(a as nat) + seq!['.'] + decimal(b as nat) + seq!['.'] + decimal(c as nat))
            == Some((a as nat, b as nat, c as nat)),
{
    let da = decimal(a as nat);
    let db = decimal(b as nat);
    let dc = decimal(c as nat);
    lemma_decimal_reads_back(a as nat);
    lemma_decimal_reads_back(b as nat);
    lemma_decimal_reads_back(c as nat);
    let e = Seq::<char>::empty();
    assert(split_on(e, '.') == seq![e]);
    lemma_split_on_append(e, da, '.');
    assert(e + da =~= da);
    assert(split_on(da, '.') =~= seq![da]);
    lemma_split_on_separator(da, '.');
    let s2 = da.push('.');
    assert(split_on(s2, '.') =~= seq![da, e]);
    lemma_split_on_append(s2, db, '.');
    let s3 = s2 + db;
    assert(split_on(s3, '.') =~= seq![da, db]);
    lemma_split_on_separator(s3, '.');
    let s4 = s3.push('.');
    assert(split_on(s4, '.') =~= seq![da, db, e]);
    lemma_split_on_append(s4, dc, '.');
    let s5 = s4 + dc;
    assert(split_on(s5, '.') =~= seq![da, db, dc]);
    assert(da + seq!['.'] + db + seq!['.'] + dc =~= s5);
    lemma_parse_decimal(a as nat, u64::MAX as nat);
    lemma_parse_decimal(b as nat, u64::MAX as nat);
    lemma_parse_decimal(c as nat, u64::MAX as nat);
}

/// The text `a.b.c` of three numbers.
pub open spec fn version_text(a: nat, b: nat, c: nat) -> Seq<char> {
    decimal(a) + seq!['.'] + decimal(b) + seq!['.'] + decimal(c)
}

/// Law: of two versions written as numbers, the first is newer exactly when
/// its major number is greater, or the major numbers are equal and its minor
/// number is greater, or both are equal and its patch number is greater — the
/// numbers compared as numbers (so 1.2.10 is newer than 1.2.9).
pub proof fn law_newer_version_compares_numbers(a1: u64, b1: u64, c1: u64, a2: u64, b2: u64, c2: u64)
    ensures
        newer_version(version_text(a1 as nat, b1 as nat, c1 as nat), version_text(a2 as nat, b2 as nat, c2 as nat))
            <==> (a1 > a2 || (a1 == a2 && b1 > b2) || (a1 == a2 && b1 == b2 && c1 > c2)),
{
    law_version_text_reads_back(a1, b1, c1);
    law_version_text_reads_back(a2, b2, c2);
}

/// Law: only versions that read as three numbers are ever newer or older;
/// between two that do, either one is newer than the other or they are the
/// same numbers.
pub proof fn law_newer_version_total(a: Seq<char>, b: Seq<char>)
    ensures
        newer_version(a, b) ==> semver(a) is Some && semver(b) is Some,
        semver(a) is Some && semver(b) is Some ==> newer_version(a, b) || newer_version(b, a) || semver(a)
            == semver(b),
{
}

} // verus!
