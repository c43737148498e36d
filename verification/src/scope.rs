//! A scope: the task an agent works on and the files it may touch.
use vstd::prelude::*;

use crate::clock::{now_rfc3339, read_system_clock, rfc3339_text, ClockReading};
use crate::error::Error;
use crate::globs::{
    glob_compile_error, glob_matches, is_literal_glob, is_simple_glob, lemma_literal_matches_itself,
    lemma_literal_matches_only_itself, lemma_literal_star_literal_matches,
    lemma_literal_star_literal_only, lemma_star_literal_matches, lemma_star_literal_only,
    no_backslash, simple_match,
    GlobPattern,
};
use crate::text::{
    basename, basename_exec, chars_of, comma_piece_strs, comma_pieces, concat, copy_range,
    ends_with, ends_with_exec, last_normal, normalize_path, normalize_path_exec, slashes,
    slashes_exec, split_on, starts_with, starts_with_exec, strip_dot_slash, string_of,
};

verus! {

/// Where a scope stands.
#[derive(Debug, Clone, Copy, PartialEq, Eq, Structural)]
pub enum ScopeStatus {
    Active,
    Completed,
    Cancelled,
}

/// A task and the files it covers.
#[derive(Debug)]
pub struct Scope {
    pub id: String,
    pub task: String,
    pub files: Option<String>,
    pub exclude: Option<String>,
    pub project: String,
    pub created_at: String,
    pub owner: String,
    pub status: ScopeStatus,
}

/// The view of an optional string.
pub open spec fn opt_view(o: Option<String>) -> Option<Seq<char>> {
    match o {
        Some(s) => Some(s@),
        None => None,
    }
}

/// A copy of an optional string.
pub fn clone_opt(o: &Option<String>) -> (r: Option<String>)
    ensures
        r == *o,
{
    match o {
        Some(s) => Some(s.clone()),
        None => None,
    }
}

impl Clone for Scope {
    fn clone(&self) -> (r: Self)
        ensures
            r == *self,
    {
        Scope {
            id: self.id.clone(),
            task: self.task.clone(),
            files: clone_opt(&self.files),
            exclude: clone_opt(&self.exclude),
            project: self.project.clone(),
            created_at: self.created_at.clone(),
            owner: self.owner.clone(),
            status: self.status,
        }
    }
}

// ---------------------------------------------------------------------------
// The rules, as specifications
// ---------------------------------------------------------------------------

/// The pattern compiles.
pub open spec fn compiles(pat: Seq<char>) -> bool {
    glob_compile_error(pat) is None
}

/// The pattern matches `p` or `/p`.
pub open spec fn match_either(pat: Seq<char>, p: Seq<char>) -> bool {
    glob_matches(pat, p) || glob_matches(pat, seq!['/'] + p)
}

/// The exclude pattern `pat` rules out the normalized path `p`: a `dir/*` pattern
/// rules out everything that begins with `dir`, any other pattern what it matches.
pub open spec fn excludes(pat: Seq<char>, p: Seq<char>) -> bool {
    if ends_with(pat, seq!['/', '*']) {
        starts_with(p, slashes(pat.take(pat.len() - 2)))
    } else {
        compiles(pat) && match_either(pat, p)
    }
}

/// The file pattern `pat` takes in the normalized path `p`.
pub open spec fn includes(pat: Seq<char>, p: Seq<char>) -> bool {
    compiles(pat) && match_either(pat, p)
}

/// Some pattern of the comma-separated list `e` rules out `p`.
pub open spec fn list_excludes(e: Seq<char>, p: Seq<char>) -> bool {
    exists|i: int| 0 <= i < comma_pieces(e).len() && #[trigger] excludes(comma_pieces(e)[i], p)
}

/// Some pattern of the comma-separated list `f` takes in `p`.
pub open spec fn list_includes(f: Seq<char>, p: Seq<char>) -> bool {
    exists|i: int| 0 <= i < comma_pieces(f).len() && #[trigger] includes(comma_pieces(f)[i], p)
}

/// Some exclude pattern rules out `p`.
pub open spec fn excluded_by(exclude: Option<Seq<char>>, p: Seq<char>) -> bool {
    match exclude {
        None => false,
        Some(e) => list_excludes(e, p),
    }
}

/// No file patterns, or some file pattern takes in `p`.
pub open spec fn included_by(files: Option<Seq<char>>, p: Seq<char>) -> bool {
    match files {
        None => true,
        Some(f) => list_includes(f, p),
    }
}

/// The scope rule: a path is in scope when no exclude pattern rules it out and some
/// file pattern takes it in (or there are no file patterns).
pub open spec fn path_in_scope(
    files: Option<Seq<char>>,
    exclude: Option<Seq<char>>,
    path: Seq<char>,
) -> bool {
    let p = normalize_path(path);
    !excluded_by(exclude, p) && included_by(files, p)
}

/// The patterns of files that may never be modified.
pub open spec fn blocked_patterns() -> Seq<Seq<char>> {
    seq![
        ".env"@,
        ".env.*"@,
        "*.env"@,
        "*.pem"@,
        "*.key"@,
        "*.p12"@,
        "*.pfx"@,
        "*.jks"@,
        "*.keystore"@,
        "credentials.json"@,
        "secrets.json"@,
        "secrets.yaml"@,
        "service-account*.json"@,
        "*.token"@,
        "id_rsa"@,
        "id_rsa*"@,
        "id_ed25519"@,
        "id_ed25519*"@,
        "id_ecdsa"@,
        "id_ecdsa*"@,
        "*.ppk"@,
        "*.cert"@,
        "*.crt"@,
    ]
}

/// Every blocked pattern is simple: it holds no `[`, no `**` and no backslash.
pub proof fn lemma_blocked_patterns_simple()
    ensures
        blocked_patterns().len() == 23,
        forall|k: int| 0 <= k < 23 ==> is_simple_glob(#[trigger] blocked_patterns()[k]),
        forall|k: int| 0 <= k < 23 ==> no_backslash(#[trigger] blocked_patterns()[k]),
{
    reveal_strlit(".env");
    reveal_strlit(".env.*");
    reveal_strlit("*.env");
    reveal_strlit("*.pem");
    reveal_strlit("*.key");
    reveal_strlit("*.p12");
    reveal_strlit("*.pfx");
    reveal_strlit("*.jks");
    reveal_strlit("*.keystore");
    reveal_strlit("credentials.json");
    reveal_strlit("secrets.json");
    reveal_strlit("secrets.yaml");
    reveal_strlit("service-account*.json");
    reveal_strlit("*.token");
    reveal_strlit("id_rsa");
    reveal_strlit("id_rsa*");
    reveal_strlit("id_ed25519");
    reveal_strlit("id_ed25519*");
    reveal_strlit("id_ecdsa");
    reveal_strlit("id_ecdsa*");
    reveal_strlit("*.ppk");
    reveal_strlit("*.cert");
    reveal_strlit("*.crt");
    assert(is_simple_glob(blocked_patterns()[0]));
    assert(is_simple_glob(blocked_patterns()[1]));
    assert(is_simple_glob(blocked_patterns()[2]));
    assert(is_simple_glob(blocked_patterns()[3]));
    assert(is_simple_glob(blocked_patterns()[4]));
    assert(is_simple_glob(blocked_patterns()[5]));
    assert(is_simple_glob(blocked_patterns()[6]));
    assert(is_simple_glob(blocked_patterns()[7]));
    assert(is_simple_glob(blocked_patterns()[8]));
    assert(is_simple_glob(blocked_patterns()[9]));
    assert(is_simple_glob(blocked_patterns()[10]));
    assert(is_simple_glob(blocked_patterns()[11]));
    assert(is_simple_glob(blocked_patterns()[12]));
    assert(is_simple_glob(blocked_patterns()[13]));
    assert(is_simple_glob(blocked_patterns()[14]));
    assert(is_simple_glob(blocked_patterns()[15]));
    assert(is_simple_glob(blocked_patterns()[16]));
    assert(is_simple_glob(blocked_patterns()[17]));
    assert(is_simple_glob(blocked_patterns()[18]));
    assert(is_simple_glob(blocked_patterns()[19]));
    assert(is_simple_glob(blocked_patterns()[20]));
    assert(is_simple_glob(blocked_patterns()[21]));
    assert(is_simple_glob(blocked_patterns()[22]));
    assert(no_backslash(blocked_patterns()[0]));
    assert(no_backslash(blocked_patterns()[1]));
    assert(no_backslash(blocked_patterns()[2]));
    assert(no_backslash(blocked_patterns()[3]));
    assert(no_backslash(blocked_patterns()[4]));
    assert(no_backslash(blocked_patterns()[5]));
    assert(no_backslash(blocked_patterns()[6]));
    assert(no_backslash(blocked_patterns()[7]));
    assert(no_backslash(blocked_patterns()[8]));
    assert(no_backslash(blocked_patterns()[9]));
    assert(no_backslash(blocked_patterns()[10]));
    assert(no_backslash(blocked_patterns()[11]));
    assert(no_backslash(blocked_patterns()[12]));
    assert(no_backslash(blocked_patterns()[13]));
    assert(no_backslash(blocked_patterns()[14]));
    assert(no_backslash(blocked_patterns()[15]));
    assert(no_backslash(blocked_patterns()[16]));
    assert(no_backslash(blocked_patterns()[17]));
    assert(no_backslash(blocked_patterns()[18]));
    assert(no_backslash(blocked_patterns()[19]));
    assert(no_backslash(blocked_patterns()[20]));
    assert(no_backslash(blocked_patterns()[21]));
    assert(no_backslash(blocked_patterns()[22]));
}

/// A normalized path holds no backslash.
pub proof fn lemma_normalized_no_backslash(path: Seq<char>)
    ensures
        no_backslash(normalize_path(path)),
{
    let t = slashes(path);
    assert(no_backslash(t));
    lemma_strip_no_backslash(t);
}

/// Removing leading `./` keeps a text free of backslashes.
proof fn lemma_strip_no_backslash(s: Seq<char>)
    requires
        no_backslash(s),
    ensures
        no_backslash(strip_dot_slash(s)),
    decreases s.len(),
{
    if s.len() >= 2 && s[0] == '.' && s[1] == '/' {
        let t = s.skip(2);
        assert forall|i: int| 0 <= i < t.len() implies #[trigger] t[i] != '\\' by {
            assert(t[i] == s[i + 2]);
        }
        lemma_strip_no_backslash(t);
    }
}

/// The pieces of a text free of backslashes are free of them too.
proof fn lemma_split_no_backslash(s: Seq<char>, sep: char)
    requires
        no_backslash(s),
    ensures
        forall|j: int| 0 <= j < split_on(s, sep).len() ==> no_backslash(#[trigger] split_on(s, sep)[j]),
    decreases s.len(),
{
    if s.len() > 0 {
        let d = s.drop_last();
        assert forall|i: int| 0 <= i < d.len() implies #[trigger] d[i] != '\\' by {
            assert(d[i] == s[i]);
        }
        lemma_split_no_backslash(d, sep);
        let rest = split_on(d, sep);
        crate::patterns::lemma_split_nonempty(d, sep);
        if s.last() != sep {
            let l = rest.last().push(s.last());
            assert(s.last() == s[s.len() - 1]);
            assert forall|i: int| 0 <= i < l.len() implies #[trigger] l[i] != '\\' by {
                if i < l.len() - 1 {
                    assert(l[i] == rest[rest.len() - 1][i]);
                }
            }
            assert forall|j: int| 0 <= j < split_on(s, sep).len() implies no_backslash(
                #[trigger] split_on(s, sep)[j],
            ) by {
                if j < rest.len() - 1 {
                    assert(split_on(s, sep)[j] == rest[j]);
                }
            }
        } else {
            assert forall|j: int| 0 <= j < split_on(s, sep).len() implies no_backslash(
                #[trigger] split_on(s, sep)[j],
            ) by {
                if j < rest.len() {
                    assert(split_on(s, sep)[j] == rest[j]);
                }
            }
        }
    }
}

/// The last normal segment of segments free of backslashes is free of them.
proof fn lemma_last_normal_no_backslash(segs: Seq<Seq<char>>)
    requires
        forall|j: int| 0 <= j < segs.len() ==> no_backslash(#[trigger] segs[j]),
    ensures
        no_backslash(last_normal(segs)),
    decreases segs.len(),
{
    if segs.len() > 0 {
        let d = segs.drop_last();
        assert forall|j: int| 0 <= j < d.len() implies no_backslash(#[trigger] d[j]) by {
            assert(d[j] == segs[j]);
        }
        lemma_last_normal_no_backslash(d);
        assert(segs.last() == segs[segs.len() - 1]);
    }
}

/// The final component of a path free of backslashes is free of them.
pub proof fn lemma_basename_no_backslash(p: Seq<char>)
    requires
        no_backslash(p),
    ensures
        no_backslash(basename(p)),
{
    lemma_split_no_backslash(p, '/');
    lemma_last_normal_no_backslash(split_on(p, '/'));
}

/// The simple pattern `pat` matches `p` or `/p`, in its documented meaning.
pub open spec fn simple_either(pat: Seq<char>, p: Seq<char>) -> bool {
    simple_match(pat, p) || simple_match(pat, seq!['/'] + p)
}

/// The blocked pattern `pat` catches the normalized path `p` with final component `b`:
/// it matches the path or the final component, or it ends in `*` and the final
/// component begins with the rest of it.
pub open spec fn blocked_by(pat: Seq<char>, p: Seq<char>, b: Seq<char>) -> bool {
    ||| simple_either(pat, p)
    ||| (b.len() > 0 && simple_either(pat, b))
    ||| (pat.len() > 0 && pat.last() == '*' && starts_with(b, pat.drop_last()))
}

/// The blocking rule: some blocked pattern catches the path.
pub open spec fn path_blocked(path: Seq<char>) -> bool {
    let p = normalize_path(path);
    let b = basename(p);
    exists|k: int| 0 <= k < blocked_patterns().len() && #[trigger] blocked_by(blocked_patterns()[k], p, b)
}

/// Final components ending in the extension of a secrets or key file.
pub open spec fn secret_extension(b: Seq<char>) -> bool {
    ||| ends_with(b, ".env"@)
    ||| ends_with(b, ".pem"@)
    ||| ends_with(b, ".key"@)
    ||| ends_with(b, ".p12"@)
    ||| ends_with(b, ".pfx"@)
    ||| ends_with(b, ".jks"@)
    ||| ends_with(b, ".keystore"@)
    ||| ends_with(b, ".token"@)
    ||| ends_with(b, ".ppk"@)
    ||| ends_with(b, ".cert"@)
    ||| ends_with(b, ".crt"@)
}

/// Final path components that name secrets: the exact names of credential files,
/// names that begin like `.env.` files and private SSH keys, names that end with
/// the extension of a secrets or key file, and service-account JSON files.
pub open spec fn secret_name(b: Seq<char>) -> bool {
    ||| b == "credentials.json"@
    ||| b == "secrets.json"@
    ||| b == "secrets.yaml"@
    ||| starts_with(b, ".env."@)
    ||| starts_with(b, "id_rsa"@)
    ||| starts_with(b, "id_ed25519"@)
    ||| starts_with(b, "id_ecdsa"@)
    ||| secret_extension(b)
    ||| (starts_with(b, "service-account"@) && ends_with(b, ".json"@) && b.len() >= 20)
}

/// Secrets are blocked wherever they lie and whatever scope is active: a path whose
/// final component names a secret is blocked.
pub proof fn lemma_secret_files_blocked(path: Seq<char>)
    requires
        secret_name(basename(normalize_path(path))),
    ensures
        path_blocked(path),
{
    let p = normalize_path(path);
    let b = basename(p);
    let pats = blocked_patterns();
    reveal_strlit("*.cert");
    reveal_strlit("*.crt");
    reveal_strlit("*.env");
    reveal_strlit("*.jks");
    reveal_strlit("*.key");
    reveal_strlit("*.keystore");
    reveal_strlit("*.p12");
    reveal_strlit("*.pem");
    reveal_strlit("*.pfx");
    reveal_strlit("*.ppk");
    reveal_strlit("*.token");
    reveal_strlit(".cert");
    reveal_strlit(".crt");
    reveal_strlit(".env");
    reveal_strlit(".env.");
    reveal_strlit(".env.*");
    reveal_strlit(".jks");
    reveal_strlit(".json");
    reveal_strlit(".key");
    reveal_strlit(".keystore");
    reveal_strlit(".p12");
    reveal_strlit(".pem");
    reveal_strlit(".pfx");
    reveal_strlit(".ppk");
    reveal_strlit(".token");
    reveal_strlit("credentials.json");
    reveal_strlit("id_ecdsa");
    reveal_strlit("id_ecdsa*");
    reveal_strlit("id_ed25519");
    reveal_strlit("id_ed25519*");
    reveal_strlit("id_rsa");
    reveal_strlit("id_rsa*");
    reveal_strlit("secrets.json");
    reveal_strlit("secrets.yaml");
    reveal_strlit("service-account");
    reveal_strlit("service-account*.json");
    if b == "credentials.json"@ {
        assert(is_literal_glob(pats[9]));
        lemma_literal_matches_itself(pats[9]);
        assert(blocked_by(pats[9], p, b));
    } else if b == "secrets.json"@ {
        assert(is_literal_glob(pats[10]));
        lemma_literal_matches_itself(pats[10]);
        assert(blocked_by(pats[10], p, b));
    } else if b == "secrets.yaml"@ {
        assert(is_literal_glob(pats[11]));
        lemma_literal_matches_itself(pats[11]);
        assert(blocked_by(pats[11], p, b));
    } else if starts_with(b, ".env."@) {
        assert(pats[1].drop_last() =~= ".env."@);
        assert(blocked_by(pats[1], p, b));
    } else if starts_with(b, "id_rsa"@) {
        assert(pats[15].drop_last() =~= "id_rsa"@);
        assert(blocked_by(pats[15], p, b));
    } else if starts_with(b, "id_ed25519"@) {
        assert(pats[17].drop_last() =~= "id_ed25519"@);
        assert(blocked_by(pats[17], p, b));
    } else if starts_with(b, "id_ecdsa"@) {
        assert(pats[19].drop_last() =~= "id_ecdsa"@);
        assert(blocked_by(pats[19], p, b));
    } else if ends_with(b, ".env"@) {
        assert(pats[2] =~= seq!['*'] + ".env"@);
        assert(is_literal_glob(".env"@));
        lemma_star_literal_matches(".env"@, b);
        assert(blocked_by(pats[2], p, b));
    } else if ends_with(b, ".pem"@) {
        assert(pats[3] =~= seq!['*'] + ".pem"@);
        assert(is_literal_glob(".pem"@));
        lemma_star_literal_matches(".pem"@, b);
        assert(blocked_by(pats[3], p, b));
    } else if ends_with(b, ".key"@) {
        assert(pats[4] =~= seq!['*'] + ".key"@);
        assert(is_literal_glob(".key"@));
        lemma_star_literal_matches(".key"@, b);
        assert(blocked_by(pats[4], p, b));
    } else if ends_with(b, ".p12"@) {
        assert(pats[5] =~= seq!['*'] + ".p12"@);
        assert(is_literal_glob(".p12"@));
        lemma_star_literal_matches(".p12"@, b);
        assert(blocked_by(pats[5], p, b));
    } else if ends_with(b, ".pfx"@) {
        assert(pats[6] =~= seq!['*'] + ".pfx"@);
        assert(is_literal_glob(".pfx"@));
        lemma_star_literal_matches(".pfx"@, b);
        assert(blocked_by(pats[6], p, b));
    } else if ends_with(b, ".jks"@) {
        assert(pats[7] =~= seq!['*'] + ".jks"@);
        assert(is_literal_glob(".jks"@));
        lemma_star_literal_matches(".jks"@, b);
        assert(blocked_by(pats[7], p, b));
    } else if ends_with(b, ".keystore"@) {
        assert(pats[8] =~= seq!['*'] + ".keystore"@);
        assert(is_literal_glob(".keystore"@));
        lemma_star_literal_matches(".keystore"@, b);
        assert(blocked_by(pats[8], p, b));
    } else if ends_with(b, ".token"@) {
        assert(pats[13] =~= seq!['*'] + ".token"@);
        assert(is_literal_glob(".token"@));
        lemma_star_literal_matches(".token"@, b);
        assert(blocked_by(pats[13], p, b));
    } else if ends_with(b, ".ppk"@) {
        assert(pats[20] =~= seq!['*'] + ".ppk"@);
        assert(is_literal_glob(".ppk"@));
        lemma_star_literal_matches(".ppk"@, b);
        assert(blocked_by(pats[20], p, b));
    } else if ends_with(b, ".cert"@) {
        assert(pats[21] =~= seq!['*'] + ".cert"@);
        assert(is_literal_glob(".cert"@));
        lemma_star_literal_matches(".cert"@, b);
        assert(blocked_by(pats[21], p, b));
    } else if ends_with(b, ".crt"@) {
        assert(pats[22] =~= seq!['*'] + ".crt"@);
        assert(is_literal_glob(".crt"@));
        lemma_star_literal_matches(".crt"@, b);
        assert(blocked_by(pats[22], p, b));
    } else {
        assert(pats[12] =~= "service-account"@ + seq!['*'] + ".json"@);
        assert(is_literal_glob("service-account"@));
        assert(is_literal_glob(".json"@));
        lemma_literal_star_literal_matches("service-account"@, ".json"@, b);
        assert(blocked_by(pats[12], p, b));
    }
}

/// The blocked patterns are the auto-blocked files of the documentation, in order.
pub proof fn lemma_blocked_patterns_listed()
    ensures
        blocked_patterns().len() == 23,
        blocked_patterns()[0] == ".env"@,
        blocked_patterns()[1] == ".env.*"@,
        blocked_patterns()[2] == "*.env"@,
        blocked_patterns()[3] == "*.pem"@,
        blocked_patterns()[4] == "*.key"@,
        blocked_patterns()[5] == "*.p12"@,
        blocked_patterns()[6] == "*.pfx"@,
        blocked_patterns()[7] == "*.jks"@,
        blocked_patterns()[8] == "*.keystore"@,
        blocked_patterns()[9] == "credentials.json"@,
        blocked_patterns()[10] == "secrets.json"@,
        blocked_patterns()[11] == "secrets.yaml"@,
        blocked_patterns()[12] == "service-account*.json"@,
        blocked_patterns()[13] == "*.token"@,
        blocked_patterns()[14] == "id_rsa"@,
        blocked_patterns()[15] == "id_rsa*"@,
        blocked_patterns()[16] == "id_ed25519"@,
        blocked_patterns()[17] == "id_ed25519*"@,
        blocked_patterns()[18] == "id_ecdsa"@,
        blocked_patterns()[19] == "id_ecdsa*"@,
        blocked_patterns()[20] == "*.ppk"@,
        blocked_patterns()[21] == "*.cert"@,
        blocked_patterns()[22] == "*.crt"@,
{
    reveal_strlit(".env");
    reveal_strlit(".env.*");
    reveal_strlit("*.env");
    reveal_strlit("*.pem");
    reveal_strlit("*.key");
    reveal_strlit("*.p12");
    reveal_strlit("*.pfx");
    reveal_strlit("*.jks");
    reveal_strlit("*.keystore");
    reveal_strlit("credentials.json");
    reveal_strlit("secrets.json");
    reveal_strlit("secrets.yaml");
    reveal_strlit("service-account*.json");
    reveal_strlit("*.token");
    reveal_strlit("id_rsa");
    reveal_strlit("id_rsa*");
    reveal_strlit("id_ed25519");
    reveal_strlit("id_ed25519*");
    reveal_strlit("id_ecdsa");
    reveal_strlit("id_ecdsa*");
    reveal_strlit("*.ppk");
    reveal_strlit("*.cert");
    reveal_strlit("*.crt");
}

/// Text that a blocked pattern matches, in the pattern's documented meaning, names
/// a secret.
proof fn lemma_blocked_pattern_names_secret(k: int, t: Seq<char>)
    requires
        0 <= k < 23,
        simple_match(blocked_patterns()[k], t),
    ensures
        secret_name(t),
{
    lemma_blocked_patterns_listed();
    if k == 0 {
        reveal_strlit(".env");
        assert(is_literal_glob(".env"@));
        lemma_literal_matches_only_itself(".env"@, t);
        assert(t.skip(0) =~= t);
        assert(ends_with(t, ".env"@));
    } else if k == 1 {
        reveal_strlit(".env.*");
        reveal_strlit(".env.");
        assert(".env.*"@ =~= ".env."@ + seq!['*'] + Seq::<char>::empty());
        assert(is_literal_glob(".env."@));
        assert(is_literal_glob(Seq::<char>::empty()));
        lemma_literal_star_literal_only(".env."@, Seq::<char>::empty(), t);
        assert(starts_with(t, ".env."@));
    } else if k == 2 {
        reveal_strlit("*.env");
        reveal_strlit(".env");
        assert("*.env"@ =~= seq!['*'] + ".env"@);
        assert(is_literal_glob(".env"@));
        lemma_star_literal_only(".env"@, t);
    } else if k == 3 {
        reveal_strlit("*.pem");
        reveal_strlit(".pem");
        assert("*.pem"@ =~= seq!['*'] + ".pem"@);
        assert(is_literal_glob(".pem"@));
        lemma_star_literal_only(".pem"@, t);
    } else if k == 4 {
        reveal_strlit("*.key");
        reveal_strlit(".key");
        assert("*.key"@ =~= seq!['*'] + ".key"@);
        assert(is_literal_glob(".key"@));
        lemma_star_literal_only(".key"@, t);
    } else if k == 5 {
        reveal_strlit("*.p12");
        reveal_strlit(".p12");
        assert("*.p12"@ =~= seq!['*'] + ".p12"@);
        assert(is_literal_glob(".p12"@));
        lemma_star_literal_only(".p12"@, t);
    } else if k == 6 {
        reveal_strlit("*.pfx");
        reveal_strlit(".pfx");
        assert("*.pfx"@ =~= seq!['*'] + ".pfx"@);
        assert(is_literal_glob(".pfx"@));
        lemma_star_literal_only(".pfx"@, t);
    } else if k == 7 {
        reveal_strlit("*.jks");
        reveal_strlit(".jks");
        assert("*.jks"@ =~= seq!['*'] + ".jks"@);
        assert(is_literal_glob(".jks"@));
        lemma_star_literal_only(".jks"@, t);
    } else if k == 8 {
        reveal_strlit("*.keystore");
        reveal_strlit(".keystore");
        assert("*.keystore"@ =~= seq!['*'] + ".keystore"@);
        assert(is_literal_glob(".keystore"@));
        lemma_star_literal_only(".keystore"@, t);
    } else if k == 9 {
        reveal_strlit("credentials.json");
        assert(is_literal_glob("credentials.json"@));
        lemma_literal_matches_only_itself("credentials.json"@, t);
    } else if k == 10 {
        reveal_strlit("secrets.json");
        assert(is_literal_glob("secrets.json"@));
        lemma_literal_matches_only_itself("secrets.json"@, t);
    } else if k == 11 {
        reveal_strlit("secrets.yaml");
        assert(is_literal_glob("secrets.yaml"@));
        lemma_literal_matches_only_itself("secrets.yaml"@, t);
    } else if k == 12 {
        reveal_strlit("service-account*.json");
        reveal_strlit("service-account");
        reveal_strlit(".json");
        assert("service-account*.json"@ =~= "service-account"@ + seq!['*'] + ".json"@);
        assert(is_literal_glob("service-account"@));
        assert(is_literal_glob(".json"@));
        lemma_literal_star_literal_only("service-account"@, ".json"@, t);
        assert(starts_with(t, "service-account"@));
    } else if k == 13 {
        reveal_strlit("*.token");
        reveal_strlit(".token");
        assert("*.token"@ =~= seq!['*'] + ".token"@);
        assert(is_literal_glob(".token"@));
        lemma_star_literal_only(".token"@, t);
    } else if k == 14 {
        reveal_strlit("id_rsa");
        assert(is_literal_glob("id_rsa"@));
        lemma_literal_matches_only_itself("id_rsa"@, t);
        assert(t.take(6) =~= t);
        assert(starts_with(t, "id_rsa"@));
    } else if k == 15 {
        reveal_strlit("id_rsa*");
        reveal_strlit("id_rsa");
        assert("id_rsa*"@ =~= "id_rsa"@ + seq!['*'] + Seq::<char>::empty());
        assert(is_literal_glob("id_rsa"@));
        assert(is_literal_glob(Seq::<char>::empty()));
        lemma_literal_star_literal_only("id_rsa"@, Seq::<char>::empty(), t);
        assert(starts_with(t, "id_rsa"@));
    } else if k == 16 {
        reveal_strlit("id_ed25519");
        assert(is_literal_glob("id_ed25519"@));
        lemma_literal_matches_only_itself("id_ed25519"@, t);
        assert(t.take(10) =~= t);
        assert(starts_with(t, "id_ed25519"@));
    } else if k == 17 {
        reveal_strlit("id_ed25519*");
        reveal_strlit("id_ed25519");
        assert("id_ed25519*"@ =~= "id_ed25519"@ + seq!['*'] + Seq::<char>::empty());
        assert(is_literal_glob("id_ed25519"@));
        assert(is_literal_glob(Seq::<char>::empty()));
        lemma_literal_star_literal_only("id_ed25519"@, Seq::<char>::empty(), t);
        assert(starts_with(t, "id_ed25519"@));
    } else if k == 18 {
        reveal_strlit("id_ecdsa");
        assert(is_literal_glob("id_ecdsa"@));
        lemma_literal_matches_only_itself("id_ecdsa"@, t);
        assert(t.take(8) =~= t);
        assert(starts_with(t, "id_ecdsa"@));
    } else if k == 19 {
        reveal_strlit("id_ecdsa*");
        reveal_strlit("id_ecdsa");
        assert("id_ecdsa*"@ =~= "id_ecdsa"@ + seq!['*'] + Seq::<char>::empty());
        assert(is_literal_glob("id_ecdsa"@));
        assert(is_literal_glob(Seq::<char>::empty()));
        lemma_literal_star_literal_only("id_ecdsa"@, Seq::<char>::empty(), t);
        assert(starts_with(t, "id_ecdsa"@));
    } else if k == 20 {
        reveal_strlit("*.ppk");
        reveal_strlit(".ppk");
        assert("*.ppk"@ =~= seq!['*'] + ".ppk"@);
        assert(is_literal_glob(".ppk"@));
        lemma_star_literal_only(".ppk"@, t);
    } else if k == 21 {
        reveal_strlit("*.cert");
        reveal_strlit(".cert");
        assert("*.cert"@ =~= seq!['*'] + ".cert"@);
        assert(is_literal_glob(".cert"@));
        lemma_star_literal_only(".cert"@, t);
    } else if k == 22 {
        reveal_strlit("*.crt");
        reveal_strlit(".crt");
        assert("*.crt"@ =~= seq!['*'] + ".crt"@);
        assert(is_literal_glob(".crt"@));
        lemma_star_literal_only(".crt"@, t);
    }
}

/// A name behind a leading `/` names a secret only when the name itself does.
proof fn lemma_slash_secret(q: Seq<char>)
    requires
        secret_name(seq!['/'] + q),
    ensures
        secret_name(q),
{
    let t = seq!['/'] + q;
    reveal_strlit("credentials.json");
    reveal_strlit("secrets.json");
    reveal_strlit("secrets.yaml");
    reveal_strlit(".env.");
    reveal_strlit("id_rsa");
    reveal_strlit("id_ed25519");
    reveal_strlit("id_ecdsa");
    reveal_strlit("service-account");
    reveal_strlit(".env");
    reveal_strlit(".pem");
    reveal_strlit(".key");
    reveal_strlit(".p12");
    reveal_strlit(".pfx");
    reveal_strlit(".jks");
    reveal_strlit(".keystore");
    reveal_strlit(".token");
    reveal_strlit(".ppk");
    reveal_strlit(".cert");
    reveal_strlit(".crt");
    assert(t[0] == '/');
    assert(t.take(1)[0] == '/');
    assert forall|l: Seq<char>| l.len() > 0 && l[0] == '.' && ends_with(t, l) implies ends_with(q, l) by {
        if l.len() == t.len() {
            assert(t.skip(0)[0] == t[0]);
        }
        assert(t.skip(t.len() - l.len()) =~= q.skip(q.len() - l.len()));
    }
    assert(".env"@[0] == '.');
    if secret_extension(t) {
        assert(".pem"@[0] == '.' && ".key"@[0] == '.' && ".p12"@[0] == '.' && ".pfx"@[0] == '.');
        assert(".jks"@[0] == '.' && ".keystore"@[0] == '.' && ".token"@[0] == '.' && ".ppk"@[0] == '.');
        assert(".cert"@[0] == '.' && ".crt"@[0] == '.');
    } else {
        assert(t.take(5)[0] == '/');
        assert(t.take(6)[0] == '/');
        assert(t.take(8)[0] == '/');
        assert(t.take(10)[0] == '/');
        assert(t.take(15)[0] == '/');
        assert(t != "credentials.json"@ && t != "secrets.json"@ && t != "secrets.yaml"@) by {
            assert("credentials.json"@[0] == 'c');
            assert("secrets.json"@[0] == 's');
            assert("secrets.yaml"@[0] == 's');
        }
    }
}

/// Only secrets are blocked: a blocked path names a secret in its final component,
/// or as a whole (as a path under a directory named like `.env.local` or `id_rsa_old`
/// does, since `*` in a blocked pattern also matches `/`).
pub proof fn lemma_only_secrets_blocked(path: Seq<char>)
    requires
        path_blocked(path),
    ensures
        secret_name(basename(normalize_path(path))) || secret_name(normalize_path(path)),
{
    let p = normalize_path(path);
    let b = basename(p);
    let pats = blocked_patterns();
    let k = choose|k: int| 0 <= k < pats.len() && #[trigger] blocked_by(pats[k], p, b);
    lemma_blocked_patterns_listed();
    let pat = pats[k];
    if simple_either(pat, p) {
        if simple_match(pat, p) {
            lemma_blocked_pattern_names_secret(k, p);
        } else {
            lemma_blocked_pattern_names_secret(k, seq!['/'] + p);
            lemma_slash_secret(p);
        }
    } else if b.len() > 0 && simple_either(pat, b) {
        if simple_match(pat, b) {
            lemma_blocked_pattern_names_secret(k, b);
        } else {
            lemma_blocked_pattern_names_secret(k, seq!['/'] + b);
            lemma_slash_secret(b);
        }
    } else {
        lemma_blocked_prefix_names_secret(k, b);
    }
}

/// A final component that begins like a blocked pattern ending in `*` names a secret.
proof fn lemma_blocked_prefix_names_secret(k: int, b: Seq<char>)
    requires
        0 <= k < 23,
        blocked_patterns()[k].len() > 0,
        blocked_patterns()[k].last() == '*',
        starts_with(b, blocked_patterns()[k].drop_last()),
    ensures
        secret_name(b),
{
    lemma_blocked_patterns_listed();
    if k == 0 {
        reveal_strlit(".env");
        assert(".env"@.last() != '*');
    } else if k == 1 {
        reveal_strlit(".env.*");
        reveal_strlit(".env.");
        assert(".env.*"@.drop_last() =~= ".env."@);
    } else if k == 2 {
        reveal_strlit("*.env");
        assert("*.env"@.last() != '*');
    } else if k == 3 {
        reveal_strlit("*.pem");
        assert("*.pem"@.last() != '*');
    } else if k == 4 {
        reveal_strlit("*.key");
        assert("*.key"@.last() != '*');
    } else if k == 5 {
        reveal_strlit("*.p12");
        assert("*.p12"@.last() != '*');
    } else if k == 6 {
        reveal_strlit("*.pfx");
        assert("*.pfx"@.last() != '*');
    } else if k == 7 {
        reveal_strlit("*.jks");
        assert("*.jks"@.last() != '*');
    } else if k == 8 {
        reveal_strlit("*.keystore");
        assert("*.keystore"@.last() != '*');
    } else if k == 9 {
        reveal_strlit("credentials.json");
        assert("credentials.json"@.last() != '*');
    } else if k == 10 {
        reveal_strlit("secrets.json");
        assert("secrets.json"@.last() != '*');
    } else if k == 11 {
        reveal_strlit("secrets.yaml");
        assert("secrets.yaml"@.last() != '*');
    } else if k == 12 {
        reveal_strlit("service-account*.json");
        assert("service-account*.json"@.last() != '*');
    } else if k == 13 {
        reveal_strlit("*.token");
        assert("*.token"@.last() != '*');
    } else if k == 14 {
        reveal_strlit("id_rsa");
        assert("id_rsa"@.last() != '*');
    } else if k == 15 {
        reveal_strlit("id_rsa*");
        reveal_strlit("id_rsa");
        assert("id_rsa*"@.drop_last() =~= "id_rsa"@);
    } else if k == 16 {
        reveal_strlit("id_ed25519");
        assert("id_ed25519"@.last() != '*');
    } else if k == 17 {
        reveal_strlit("id_ed25519*");
        reveal_strlit("id_ed25519");
        assert("id_ed25519*"@.drop_last() =~= "id_ed25519"@);
    } else if k == 18 {
        reveal_strlit("id_ecdsa");
        assert("id_ecdsa"@.last() != '*');
    } else if k == 19 {
        reveal_strlit("id_ecdsa*");
        reveal_strlit("id_ecdsa");
        assert("id_ecdsa*"@.drop_last() =~= "id_ecdsa"@);
    } else if k == 20 {
        reveal_strlit("*.ppk");
        assert("*.ppk"@.last() != '*');
    } else if k == 21 {
        reveal_strlit("*.cert");
        assert("*.cert"@.last() != '*');
    } else if k == 22 {
        reveal_strlit("*.crt");
        assert("*.crt"@.last() != '*');
    }
}

/// Exclusion wins: a path that an exclude pattern rules out is not in scope,
/// whatever the file patterns say.
pub proof fn lemma_exclusion_wins(
    files: Option<Seq<char>>,
    exclude: Option<Seq<char>>,
    path: Seq<char>,
)
    requires
        excluded_by(exclude, normalize_path(path)),
    ensures
        !path_in_scope(files, exclude, path),
{
}

/// Without file patterns, every path that no exclude pattern rules out is in scope.
pub proof fn lemma_no_files_everything_in_scope(exclude: Option<Seq<char>>, path: Seq<char>)
    requires
        !excluded_by(exclude, normalize_path(path)),
    ensures
        path_in_scope(None, exclude, path),
{
}

/// A `dir/*` exclusion rules out everything under `dir`, at any depth.
pub proof fn lemma_excluded_directory(
    files: Option<Seq<char>>,
    exclude: Seq<char>,
    path: Seq<char>,
    i: int,
)
    requires
        0 <= i < comma_pieces(exclude).len(),
        ends_with(comma_pieces(exclude)[i], seq!['/', '*']),
        starts_with(
            normalize_path(path),
            slashes(comma_pieces(exclude)[i].take(comma_pieces(exclude)[i].len() - 2)),
        ),
    ensures
        !path_in_scope(files, Some(exclude), path),
{
    assert(excludes(comma_pieces(exclude)[i], normalize_path(path)));
}

/// A leading `./` changes nothing: a path is in scope, and blocked, exactly when it
/// is without it.
pub proof fn lemma_dot_slash_ignored(
    files: Option<Seq<char>>,
    exclude: Option<Seq<char>>,
    path: Seq<char>,
)
    ensures
        path_in_scope(files, exclude, seq!['.', '/'] + path) == path_in_scope(files, exclude, path),
        path_blocked(seq!['.', '/'] + path) == path_blocked(path),
{
    let s = slashes(seq!['.', '/'] + path);
    assert(s =~= seq!['.', '/'] + slashes(path));
    assert(s.skip(2) =~= slashes(path));
    assert(normalize_path(seq!['.', '/'] + path) == normalize_path(path));
}

/// Backslashes separate as slashes do: a path is in scope, and blocked, exactly when
/// the same path written with slashes is.
pub proof fn lemma_backslashes_as_slashes(
    files: Option<Seq<char>>,
    exclude: Option<Seq<char>>,
    path: Seq<char>,
)
    ensures
        path_in_scope(files, exclude, slashes(path)) == path_in_scope(files, exclude, path),
        path_blocked(slashes(path)) == path_blocked(path),
{
    assert(slashes(slashes(path)) =~= slashes(path));
    assert(normalize_path(slashes(path)) == normalize_path(path));
}

/// The first compile error among `pieces`, in order.
pub open spec fn first_compile_error(pieces: Seq<Seq<char>>) -> Option<Seq<char>>
    decreases pieces.len(),
{
    if pieces.len() == 0 {
        None
    } else {
        match glob_compile_error(pieces[0]) {
            Some(m) => Some(m),
            None => first_compile_error(pieces.drop_first()),
        }
    }
}

/// The first compile error among the pieces of an optional pattern list.
pub open spec fn list_error(o: Option<Seq<char>>) -> Option<Seq<char>> {
    match o {
        Some(s) => first_compile_error(comma_pieces(s)),
        None => None,
    }
}

/// The first compile error of a scope's patterns: the file patterns first, then the
/// exclude patterns.
pub open spec fn patterns_error(files: Option<Seq<char>>, exclude: Option<Seq<char>>) -> Option<
    Seq<char>,
> {
    match list_error(files) {
        Some(m) => Some(m),
        None => list_error(exclude),
    }
}

/// A list of patterns has no compile error exactly when every piece compiles, and
/// an error it reports is the error of its first piece that does not compile.
pub proof fn lemma_first_compile_error(pieces: Seq<Seq<char>>)
    ensures
        first_compile_error(pieces) is None <==> forall|i: int|
            0 <= i < pieces.len() ==> (#[trigger] glob_compile_error(pieces[i])) is None,
        first_compile_error(pieces) matches Some(m) ==> exists|i: int|
            0 <= i < pieces.len() && glob_compile_error(#[trigger] pieces[i]) == Some(m) && forall|j: int|
                0 <= j < i ==> (#[trigger] glob_compile_error(pieces[j])) is None,
    decreases pieces.len(),
{
    if pieces.len() > 0 {
        let rest = pieces.drop_first();
        lemma_first_compile_error(rest);
        assert forall|i: int| 1 <= i < pieces.len() implies #[trigger] pieces[i] == rest[i - 1] by {}
        if glob_compile_error(pieces[0]) is None {
            if first_compile_error(rest) is None {
                assert forall|i: int| 0 <= i < pieces.len() implies (#[trigger] glob_compile_error(
                    pieces[i],
                )) is None by {
                    if i > 0 {
                        assert(glob_compile_error(rest[i - 1]) is None);
                    }
                }
            } else {
                let m = first_compile_error(rest)->Some_0;
                let i = choose|i: int|
                    0 <= i < rest.len() && glob_compile_error(#[trigger] rest[i]) == Some(m) && forall|j: int|
                        0 <= j < i ==> (#[trigger] glob_compile_error(rest[j])) is None;
                assert(pieces[i + 1] == rest[i]);
                assert forall|j: int| 0 <= j < i + 1 implies (#[trigger] glob_compile_error(
                    pieces[j],
                )) is None by {
                    if j > 0 {
                        assert(pieces[j] == rest[j - 1]);
                        assert(glob_compile_error(rest[j - 1]) is None);
                    }
                }
                assert(glob_compile_error(pieces[i + 1]) is Some);
            }
        }
    }
}

/// A scope's patterns are accepted exactly when every trimmed comma-separated piece
/// of the file patterns and of the exclude patterns compiles.
pub proof fn lemma_patterns_accepted(files: Option<Seq<char>>, exclude: Option<Seq<char>>)
    ensures
        patterns_error(files, exclude) is None <==> {
            &&& (files matches Some(f) ==> forall|i: int|
                0 <= i < comma_pieces(f).len() ==> (#[trigger] glob_compile_error(comma_pieces(f)[i])) is None)
            &&& (exclude matches Some(e) ==> forall|i: int|
                0 <= i < comma_pieces(e).len() ==> (#[trigger] glob_compile_error(comma_pieces(e)[i])) is None)
        },
{
    if let Some(f) = files {
        lemma_first_compile_error(comma_pieces(f));
    }
    if let Some(e) = exclude {
        lemma_first_compile_error(comma_pieces(e));
    }
}

/// Any file pattern takes a path in: when some trimmed comma-separated file pattern
/// compiles and matches the normalized path (or it with a leading `/`), and no
/// exclude pattern rules the path out, the path is in scope.
pub proof fn lemma_any_file_pattern_takes_in(
    files: Seq<char>,
    exclude: Option<Seq<char>>,
    path: Seq<char>,
    i: int,
)
    requires
        0 <= i < comma_pieces(files).len(),
        glob_compile_error(comma_pieces(files)[i]) is None,
        glob_matches(comma_pieces(files)[i], normalize_path(path)) || glob_matches(
            comma_pieces(files)[i],
            seq!['/'] + normalize_path(path),
        ),
        !excluded_by(exclude, normalize_path(path)),
    ensures
        path_in_scope(Some(files), exclude, path),
{
    assert(includes(comma_pieces(files)[i], normalize_path(path)));
}

/// With file patterns, a path is in scope only when no exclude pattern rules it out
/// and some trimmed comma-separated file pattern compiles and matches the normalized
/// path (or it with a leading `/`).
pub proof fn lemma_in_scope_by_some_file_pattern(
    files: Seq<char>,
    exclude: Option<Seq<char>>,
    path: Seq<char>,
)
    requires
        path_in_scope(Some(files), exclude, path),
    ensures
        !excluded_by(exclude, normalize_path(path)),
        exists|i: int|
            0 <= i < comma_pieces(files).len() && glob_compile_error(#[trigger] comma_pieces(files)[i])
                is None && (glob_matches(comma_pieces(files)[i], normalize_path(path)) || glob_matches(
                comma_pieces(files)[i],
                seq!['/'] + normalize_path(path),
            )),
{
    let p = normalize_path(path);
    let i = choose|i: int| 0 <= i < comma_pieces(files).len() && #[trigger] includes(comma_pieces(files)[i], p);
    assert(glob_compile_error(comma_pieces(files)[i]) is None);
}

/// Any exclude pattern rules a path out: when some trimmed comma-separated exclude
/// pattern other than a `dir/*` one compiles and matches the normalized path (or it
/// with a leading `/`), the path is not in scope, whatever the file patterns.
pub proof fn lemma_any_exclude_pattern_rules_out(
    files: Option<Seq<char>>,
    exclude: Seq<char>,
    path: Seq<char>,
    i: int,
)
    requires
        0 <= i < comma_pieces(exclude).len(),
        !ends_with(comma_pieces(exclude)[i], seq!['/', '*']),
        glob_compile_error(comma_pieces(exclude)[i]) is None,
        glob_matches(comma_pieces(exclude)[i], normalize_path(path)) || glob_matches(
            comma_pieces(exclude)[i],
            seq!['/'] + normalize_path(path),
        ),
    ensures
        !path_in_scope(files, Some(exclude), path),
{
    assert(excludes(comma_pieces(exclude)[i], normalize_path(path)));
}

/// The lower-case hexadecimal digit for `d`.
pub open spec fn hex_char(d: nat) -> char {
    seq!['0', '1', '2', '3', '4', '5', '6', '7', '8', '9', 'a', 'b', 'c', 'd', 'e', 'f'][d as int]
}

/// `n` in lower-case hexadecimal, without leading zeros.
pub open spec fn hex_digits(n: nat) -> Seq<char>
    decreases n,
{
    if n < 16 {
        seq![hex_char(n)]
    } else {
        hex_digits(n / 16).push(hex_char(n % 16))
    }
}

/// The id of a scope made at `nanos` nanoseconds past the epoch.
pub open spec fn scope_id_for(nanos: nat) -> Seq<char> {
    "scope-"@ + hex_digits(nanos)
}

// ---------------------------------------------------------------------------
// Executable code
// ---------------------------------------------------------------------------

/// Appends `n` in lower-case hexadecimal to `out`.
pub fn push_hex(n: u128, out: &mut Vec<char>)
    ensures
        final(out)@ == old(out)@ + hex_digits(n as nat),
    decreases n,
{
    if n >= 16 {
        push_hex(n / 16, out);
    }
    let d = (n % 16) as usize;
    let digits = ['0', '1', '2', '3', '4', '5', '6', '7', '8', '9', 'a', 'b', 'c', 'd', 'e', 'f'];
    let c = digits[d];
    assert(c == hex_char((n % 16) as nat));
    out.push(c);
}

/// The unique text for a scope made at clock reading `c`: its nanoseconds past the
/// Unix epoch in lower-case hexadecimal, or `None` when `c` lies before the epoch.
pub open spec fn uuid_text(c: ClockReading) -> Option<Seq<char>> {
    if c.before_epoch {
        None
    } else {
        Some(hex_digits((c.secs * 1_000_000_000 + c.nanos) as nat))
    }
}

/// The unique text for a scope made at clock reading `c`; see `uuid_text`.
pub fn uuid_of(c: &ClockReading) -> (r: Option<String>)
    ensures
        opt_view(r) == uuid_text(*c),
{
    if c.before_epoch {
        return None;
    }
    let n: u128 = (c.secs as u128) * 1_000_000_000 + (c.nanos as u128);
    let mut v: Vec<char> = Vec::new();
    push_hex(n, &mut v);
    assert(v@ =~= hex_digits(n as nat));
    Some(string_of(&v))
}

/// The current time in lower-case hexadecimal nanoseconds, or `None` when the system
/// clock is set before the Unix epoch.
pub fn uuid_simple() -> (r: Option<String>)
    ensures
        r matches Some(s) ==> exists|n: nat| s@ == #[trigger] hex_digits(n),
{
    let c = read_system_clock();
    uuid_of(&c)
}

/// Compiles every piece of `pieces` in order and reports the first error.
fn check_pieces(list: &str) -> (r: Result<(), String>)
    ensures
        match first_compile_error(comma_pieces(list@)) {
            None => r is Ok,
            Some(m) => r matches Err(e) && e@ == m,
        },
{
    let pieces = comma_piece_strs(list);
    let ghost all = comma_pieces(list@);
    let mut i: usize = 0;
    assert(all.skip(0) =~= all);
    while i < pieces.len()
        invariant
            all == comma_pieces(list@),
            pieces@.len() == all.len(),
            forall|j: int| 0 <= j < pieces@.len() ==> (#[trigger] pieces@[j])@ == all[j],
            i <= pieces.len(),
            first_compile_error(all) == first_compile_error(all.skip(i as int)),
        decreases pieces.len() - i,
    {
        assert(all.skip(i as int).len() > 0);
        assert(all.skip(i as int)[0] == all[i as int]);
        assert(all.skip(i as int).drop_first() =~= all.skip(i + 1));
        match GlobPattern::compile(pieces[i]) {
            Ok(_) => {},
            Err(m) => {
                assert(pieces@[i as int]@ == all[i as int]);
                assert(glob_compile_error(all[i as int]) == Some(m@));
                assert(first_compile_error(all.skip(i as int)) == Some(m@));
                return Err(m);
            },
        }
        i = i + 1;
    }
    assert(all.skip(i as int).len() == 0);
    Ok(())
}

/// Compiles the patterns of an optional list.
fn check_list(o: &Option<String>) -> (r: Result<(), String>)
    ensures
        match list_error(opt_view(*o)) {
            None => r is Ok,
            Some(m) => r matches Err(e) && e@ == m,
        },
{
    match o {
        Some(s) => check_pieces(s.as_str()),
        None => Ok(()),
    }
}

/// The scope made of these parts with the unique text `uuid` (`None` when the clock
/// read a time before the Unix epoch) and stamped `created_at` (`None` when the clock
/// read a time outside the calendar). Every comma-separated
/// file and exclude pattern must compile; the first that does not (file patterns
/// first) is reported. The id is `scope-` followed by `uuid`; the project defaults
/// to `.`.
pub fn scope_at(
    task: String,
    files: Option<String>,
    exclude: Option<String>,
    project: Option<String>,
    owner: String,
    uuid: Option<String>,
    created_at: Option<String>,
) -> (r: Result<Scope, Error>)
    ensures
        patterns_error(opt_view(files), opt_view(exclude)) matches Some(m) ==> (r matches Err(
            Error::InvalidPattern(e),
        ) && e@ == m),
        patterns_error(opt_view(files), opt_view(exclude)) is None && (uuid is None || created_at is None)
            ==> r matches Err(Error::Io(_)),
        patterns_error(opt_view(files), opt_view(exclude)) is None && uuid is Some && created_at is Some
            ==> r is Ok,
        r matches Ok(s) ==> {
            &&& s.task == task
            &&& s.files == files
            &&& s.exclude == exclude
            &&& s.project@ == (match project {
                Some(p) => p@,
                None => "."@,
            })
            &&& s.owner == owner
            &&& s.status == ScopeStatus::Active
            &&& uuid matches Some(u) && s.id@ == "scope-"@ + u@
            &&& created_at == Some(s.created_at)
        },
{
    match check_list(&files) {
        Ok(()) => {},
        Err(m) => {
            return Err(Error::InvalidPattern(m));
        },
    }
    match check_list(&exclude) {
        Ok(()) => {},
        Err(m) => {
            return Err(Error::InvalidPattern(m));
        },
    }
    let project = match project {
        Some(p) => p,
        None => String::from_str("."),
    };
    let hex = match uuid {
        Some(h) => h,
        None => {
            return Err(Error::Io(String::from_str("system clock is set before the Unix epoch")));
        },
    };
    let created_at = match created_at {
        Some(t) => t,
        None => {
            return Err(Error::Io(String::from_str("the clock reads a time outside the calendar")));
        },
    };
    let id = concat("scope-", hex.as_str());
    Ok(Scope {
        id,
        task,
        files,
        exclude,
        project,
        created_at,
        owner,
        status: ScopeStatus::Active,
    })
}

impl Scope {
    /// A new active scope for `task`, owned by `owner`, made now: `scope_at` with the
    /// text that `uuid_of` gives for one reading of the clock and the time that
    /// `rfc3339_of` gives for another.
    pub fn new(
        task: String,
        files: Option<String>,
        exclude: Option<String>,
        project: Option<String>,
        owner: String,
    ) -> (r: Result<Scope, Error>)
        ensures
            patterns_error(opt_view(files), opt_view(exclude)) matches Some(m) ==> (r matches Err(
                Error::InvalidPattern(e),
            ) && e@ == m),
            patterns_error(opt_view(files), opt_view(exclude)) is None ==> (r is Ok || r matches Err(
                Error::Io(_),
            )),
            r matches Ok(s) ==> {
                &&& s.task == task
                &&& s.files == files
                &&& s.exclude == exclude
                &&& s.project@ == (match project {
                    Some(p) => p@,
                    None => "."@,
                })
                &&& s.owner == owner
                &&& s.status == ScopeStatus::Active
                &&& exists|n: nat| s.id@ == #[trigger] scope_id_for(n)
                &&& exists|t: i64, n: u32| #[trigger] rfc3339_text(t, n) == s.created_at@
            },
    {
        let uuid = uuid_simple();
        let created_at = now_rfc3339();
        let r = scope_at(task, files, exclude, project, owner, uuid, created_at);
        proof {
            if r is Ok {
                let n = choose|n: nat| uuid->Some_0@ == #[trigger] hex_digits(n);
                assert(r->Ok_0.id@ == scope_id_for(n));
                let (t, m) = choose|t: i64, m: u32| #[trigger] rfc3339_text(t, m) == created_at->Some_0@;
                assert(rfc3339_text(t, m) == r->Ok_0.created_at@);
            }
        }
        r
    }
}


/// Whether the compiled pattern matches `p` or `/p`.
fn match_either_exec(g: &GlobPattern, ps: &str, sp: &str) -> (r: bool)
    requires
        sp@ == seq!['/'] + ps@,
    ensures
        r == match_either(g.source(), ps@),
        is_simple_glob(g.source()) && no_backslash(g.source()) && no_backslash(ps@) ==> (r
            == simple_either(g.source(), ps@)),
{
    proof {
        if no_backslash(ps@) {
            assert forall|i: int| 0 <= i < sp@.len() implies #[trigger] sp@[i] != '\\' by {
                if i > 0 {
                    assert(sp@[i] == ps@[i - 1]);
                }
            }
        }
    }
    g.matches(ps) || g.matches(sp)
}

/// `/` followed by `s`.
fn with_leading_slash(s: &str) -> (r: String)
    ensures
        r@ == seq!['/'] + s@,
{
    let r = concat("/", s);
    proof {
        reveal_strlit("/");
    }
    assert("/"@ =~= seq!['/']);
    r
}

/// Whether the exclude pattern `pat` rules out the normalized path `p`.
fn excludes_exec(pat: &str, p: &[char], ps: &str, sp: &str) -> (r: bool)
    requires
        ps@ == p@,
        sp@ == seq!['/'] + p@,
    ensures
        r == excludes(pat@, p@),
{
    let pc = chars_of(pat);
    let tail = ['/', '*'];
    assert(tail@ =~= seq!['/', '*']);
    if ends_with_exec(&pc, &tail) {
        let dir = copy_range(&pc, 0, pc.len() - 2);
        assert(dir@ =~= pat@.take(pat@.len() - 2));
        let nd = slashes_exec(&dir);
        starts_with_exec(p, &nd)
    } else {
        match GlobPattern::compile(pat) {
            Ok(g) => match_either_exec(&g, ps, sp),
            Err(_) => false,
        }
    }
}

/// Whether the file pattern `pat` takes in the normalized path `p`.
fn includes_exec(pat: &str, ps: &str, sp: &str) -> (r: bool)
    requires
        sp@ == seq!['/'] + ps@,
    ensures
        r == includes(pat@, ps@),
{
    match GlobPattern::compile(pat) {
        Ok(g) => match_either_exec(&g, ps, sp),
        Err(_) => false,
    }
}

/// Whether some exclude pattern of `list` rules out `p`.
fn excluded_exec(list: &str, p: &[char], ps: &str, sp: &str) -> (r: bool)
    requires
        ps@ == p@,
        sp@ == seq!['/'] + p@,
    ensures
        r == list_excludes(list@, p@),
{
    let pieces = comma_piece_strs(list);
    let ghost all = comma_pieces(list@);
    let mut i: usize = 0;
    while i < pieces.len()
        invariant
            all == comma_pieces(list@),
            pieces@.len() == all.len(),
            forall|j: int| 0 <= j < pieces@.len() ==> (#[trigger] pieces@[j])@ == all[j],
            ps@ == p@,
            sp@ == seq!['/'] + p@,
            i <= pieces.len(),
            forall|j: int| 0 <= j < i ==> !excludes(#[trigger] all[j], p@),
        decreases pieces.len() - i,
    {
        if excludes_exec(pieces[i], p, ps, sp) {
            assert(excludes(comma_pieces(list@)[i as int], p@));
            return true;
        }
        i = i + 1;
    }
    false
}

/// Whether some file pattern of `list` takes in `p`.
fn included_exec(list: &str, ps: &str, sp: &str) -> (r: bool)
    requires
        sp@ == seq!['/'] + ps@,
    ensures
        r == list_includes(list@, ps@),
{
    let pieces = comma_piece_strs(list);
    let ghost all = comma_pieces(list@);
    let mut i: usize = 0;
    while i < pieces.len()
        invariant
            all == comma_pieces(list@),
            pieces@.len() == all.len(),
            forall|j: int| 0 <= j < pieces@.len() ==> (#[trigger] pieces@[j])@ == all[j],
            sp@ == seq!['/'] + ps@,
            i <= pieces.len(),
            forall|j: int| 0 <= j < i ==> !includes(#[trigger] all[j], ps@),
        decreases pieces.len() - i,
    {
        if includes_exec(pieces[i], ps, sp) {
            assert(includes(comma_pieces(list@)[i as int], ps@));
            return true;
        }
        i = i + 1;
    }
    false
}

/// The `k`-th blocked pattern.
fn blocked_pattern(k: usize) -> (r: &'static str)
    requires
        k < 23,
    ensures
        r@ == blocked_patterns()[k as int],
{
    match k {
        0 => ".env",
        1 => ".env.*",
        2 => "*.env",
        3 => "*.pem",
        4 => "*.key",
        5 => "*.p12",
        6 => "*.pfx",
        7 => "*.jks",
        8 => "*.keystore",
        9 => "credentials.json",
        10 => "secrets.json",
        11 => "secrets.yaml",
        12 => "service-account*.json",
        13 => "*.token",
        14 => "id_rsa",
        15 => "id_rsa*",
        16 => "id_ed25519",
        17 => "id_ed25519*",
        18 => "id_ecdsa",
        19 => "id_ecdsa*",
        20 => "*.ppk",
        21 => "*.cert",
        _ => "*.crt",
    }
}

/// Whether the blocked pattern `pat` catches the path `ps` with final component `bs`.
fn blocked_by_exec(pat: &str, ps: &str, sp: &str, b: &[char], bs: &str, sb: &str) -> (r: bool)
    requires
        is_simple_glob(pat@),
        no_backslash(pat@),
        no_backslash(ps@),
        no_backslash(b@),
        sp@ == seq!['/'] + ps@,
        bs@ == b@,
        sb@ == seq!['/'] + b@,
    ensures
        r == blocked_by(pat@, ps@, b@),
{
    match GlobPattern::compile(pat) {
        Err(_) => false,
        Ok(g) => {
            if match_either_exec(&g, ps, sp) {
                return true;
            }
            if b.len() > 0 && match_either_exec(&g, bs, sb) {
                return true;
            }
            let pc = chars_of(pat);
            if pc.len() > 0 && pc[pc.len() - 1] == '*' {
                let prefix = copy_range(&pc, 0, pc.len() - 1);
                assert(prefix@ =~= pat@.drop_last());
                starts_with_exec(b, &prefix)
            } else {
                false
            }
        },
    }
}

impl Scope {
    /// The comma-separated file patterns, trimmed; `None` when the scope has none.
    pub fn files_pattern(&self) -> (r: Option<Vec<&str>>)
        ensures
            r is Some <==> self.files is Some,
            r matches Some(v) ==> {
                &&& v@.len() == comma_pieces(self.files->0@).len()
                &&& forall|j: int|
                    0 <= j < v@.len() ==> (#[trigger] v@[j])@ == comma_pieces(self.files->0@)[j]
            },
    {
        match &self.files {
            Some(f) => Some(comma_piece_strs(f.as_str())),
            None => None,
        }
    }

    /// The comma-separated exclude patterns, trimmed; `None` when the scope has none.
    pub fn exclude_pattern(&self) -> (r: Option<Vec<&str>>)
        ensures
            r is Some <==> self.exclude is Some,
            r matches Some(v) ==> {
                &&& v@.len() == comma_pieces(self.exclude->0@).len()
                &&& forall|j: int|
                    0 <= j < v@.len() ==> (#[trigger] v@[j])@ == comma_pieces(
                        self.exclude->0@,
                    )[j]
            },
    {
        match &self.exclude {
            Some(e) => Some(comma_piece_strs(e.as_str())),
            None => None,
        }
    }

    /// Whether `file_path` is in this scope: after turning backslashes into slashes
    /// and dropping leading `./`, no exclude pattern rules it out and some file
    /// pattern (or the absence of any) takes it in.
    pub fn is_file_in_scope(&self, file_path: &str) -> (r: bool)
        ensures
            r == path_in_scope(opt_view(self.files), opt_view(self.exclude), file_path@),
    {
        let raw = chars_of(file_path);
        let p = normalize_path_exec(&raw);
        let ps = string_of(&p);
        let sp = with_leading_slash(ps.as_str());
        if let Some(ex) = &self.exclude {
            if excluded_exec(ex.as_str(), &p, ps.as_str(), sp.as_str()) {
                return false;
            }
        }
        match &self.files {
            None => true,
            Some(f) => included_exec(f.as_str(), ps.as_str(), sp.as_str()),
        }
    }

    /// Whether `file_path` is a secrets file that may never be modified.
    pub fn is_blocked_file(&self, file_path: &str) -> (r: bool)
        ensures
            r == path_blocked(file_path@),
    {
        let raw = chars_of(file_path);
        let p = normalize_path_exec(&raw);
        let ps = string_of(&p);
        let sp = with_leading_slash(ps.as_str());
        let b = basename_exec(&p);
        let bs = string_of(&b);
        let sb = with_leading_slash(bs.as_str());
        let ghost pats = blocked_patterns();
        proof {
            lemma_blocked_patterns_simple();
            lemma_normalized_no_backslash(file_path@);
            lemma_basename_no_backslash(ps@);
        }
        let mut k: usize = 0;
        while k < 23
            invariant
                pats == blocked_patterns(),
                pats.len() == 23,
                forall|j: int| 0 <= j < 23 ==> is_simple_glob(#[trigger] pats[j]),
                forall|j: int| 0 <= j < 23 ==> no_backslash(#[trigger] pats[j]),
                no_backslash(ps@),
                no_backslash(b@),
                ps@ == normalize_path(file_path@),
                sp@ == seq!['/'] + ps@,
                b@ == basename(ps@),
                bs@ == b@,
                sb@ == seq!['/'] + b@,
                k <= 23,
                forall|j: int| 0 <= j < k ==> !blocked_by(#[trigger] pats[j], ps@, b@),
            decreases 23 - k,
        {
            if blocked_by_exec(blocked_pattern(k), ps.as_str(), sp.as_str(), &b, bs.as_str(), sb.as_str()) {
                assert(blocked_by(pats[k as int], ps@, b@));
                return true;
            }
            k = k + 1;
        }
        false
    }
}

} // verus!
