//! Denials that every policy holds unless they are left out.
//!
//! They protect the usual places of credentials and secrets, also where paths
//! without a rule are readable.
use crate::native;
use crate::native::Style;
use crate::paths::{FsAccess, FsRule, FsRuleView};
use vstd::prelude::*;

verus! {

/// Credential locations below the home directory.
pub open spec fn credential_suffixes() -> Seq<Seq<char>> {
    seq![
        ".ssh"@,
        ".gnupg"@,
        ".aws"@,
        ".azure"@,
        ".kube"@,
        ".docker"@,
        ".config/gcloud"@,
        ".config/gh"@,
        ".netrc"@,
        "Library/Keychains"@,
        "Library/IdentityServices"@,
    ]
}

/// System files that hold secrets.
pub open spec fn system_secrets() -> Seq<Seq<char>> {
    seq!["/etc/shadow"@, "/etc/gshadow"@, "/etc/sudoers"@, "/etc/master.passwd"@]
}

/// Names under which secrets are usually kept.
pub open spec fn secret_patterns() -> Seq<Seq<char>> {
    seq![
        "**/.env"@,
        "**/.env.*"@,
        "**/.env.local"@,
        "**/*.pem"@,
        "**/*.key"@,
        "**/*.p12"@,
        "**/*.pfx"@,
        "**/id_rsa"@,
        "**/id_ed25519"@,
        "**/id_ecdsa"@,
        "**/credentials.json"@,
        "**/.netrc"@,
        "**/secrets.yaml"@,
        "**/secrets.yml"@,
    ]
}

/// A denial of `path`.
pub open spec fn denial(path: Seq<char>, glob: bool) -> FsRuleView {
    FsRuleView { path, access: FsAccess::Deny, glob }
}

pub open spec fn credential_rules(style: Style, home: Seq<char>) -> Seq<FsRuleView> {
    credential_suffixes().map_values(|s: Seq<char>| denial(native::joined(style, home, s), false))
        + system_secrets().map_values(|s: Seq<char>| denial(s, false))
}

pub open spec fn secret_rules() -> Seq<FsRuleView> {
    secret_patterns().map_values(|s: Seq<char>| denial(s, true))
}

pub open spec fn deny_rules(style: Style, home: Seq<char>) -> Seq<FsRuleView> {
    credential_rules(style, home) + secret_rules()
}

/// The credential paths that are always denied, for the home directory `home`.
pub fn baseline_credential_path_denies(style: Style, home: &str) -> (r: Vec<FsRule>)
    ensures
        r.deep_view() == credential_rules(style, home@),
{
    let suffixes: [&str; 11] = [
        ".ssh",
        ".gnupg",
        ".aws",
        ".azure",
        ".kube",
        ".docker",
        ".config/gcloud",
        ".config/gh",
        ".netrc",
        "Library/Keychains",
        "Library/IdentityServices",
    ];
    let system: [&str; 4] = ["/etc/shadow", "/etc/gshadow", "/etc/sudoers", "/etc/master.passwd"];
    let ghost goal = credential_rules(style, home@);
    let mut r: Vec<FsRule> = Vec::new();
    let mut i: usize = 0;
    while i < 11
        invariant
            i <= 11,
            goal == credential_rules(style, home@),
            forall|k: int| 0 <= k < 11 ==> (#[trigger] suffixes@[k])@ == credential_suffixes()[k],
            r.deep_view() == goal.take(i as int),
        decreases 11 - i,
    {
        let ghost before = r.deep_view();
        r.push(FsRule::deny(native::join(style, home, suffixes[i]).as_str()));
        assert(suffixes@[i as int]@ == credential_suffixes()[i as int]);
        i += 1;
        assert(r.deep_view() =~= before.push(goal[i - 1]));
        assert(r.deep_view() =~= goal.take(i as int));
    }
    let mut j: usize = 0;
    while j < 4
        invariant
            j <= 4,
            goal == credential_rules(style, home@),
            forall|k: int| 0 <= k < 4 ==> (#[trigger] system@[k])@ == system_secrets()[k],
            r.deep_view() == goal.take(11 + j),
        decreases 4 - j,
    {
        let ghost before = r.deep_view();
        r.push(FsRule::deny(system[j]));
        assert(system@[j as int]@ == system_secrets()[j as int]);
        j += 1;
        assert(r.deep_view() =~= before.push(goal[10 + j]));
        assert(r.deep_view() =~= goal.take(11 + j));
    }
    assert(goal.take(15) =~= goal);
    r
}

/// The globs that are always denied.
pub fn baseline_secret_glob_denies() -> (r: Vec<FsRule>)
    ensures
        r.deep_view() == secret_rules(),
{
    let patterns: [&str; 14] = [
        "**/.env",
        "**/.env.*",
        "**/.env.local",
        "**/*.pem",
        "**/*.key",
        "**/*.p12",
        "**/*.pfx",
        "**/id_rsa",
        "**/id_ed25519",
        "**/id_ecdsa",
        "**/credentials.json",
        "**/.netrc",
        "**/secrets.yaml",
        "**/secrets.yml",
    ];
    let ghost goal = secret_rules();
    let mut r: Vec<FsRule> = Vec::new();
    let mut i: usize = 0;
    while i < 14
        invariant
            i <= 14,
            goal == secret_rules(),
            forall|k: int| 0 <= k < 14 ==> (#[trigger] patterns@[k])@ == secret_patterns()[k],
            r.deep_view() == goal.take(i as int),
        decreases 14 - i,
    {
        let ghost before = r.deep_view();
        r.push(FsRule::deny_glob(patterns[i]));
        assert(patterns@[i as int]@ == secret_patterns()[i as int]);
        i += 1;
        assert(r.deep_view() =~= before.push(goal[i - 1]));
        assert(r.deep_view() =~= goal.take(i as int));
    }
    assert(goal.take(14) =~= goal);
    r
}

/// All denials that are always added: paths, then globs.
pub fn baseline_deny_rules(style: Style, home: &str) -> (r: Vec<FsRule>)
    ensures
        r.deep_view() == deny_rules(style, home@),
{
    let mut r = baseline_credential_path_denies(style, home);
    let mut globs = baseline_secret_glob_denies();
    let ghost a = r.deep_view();
    let ghost b = globs.deep_view();
    r.append(&mut globs);
    assert(r.deep_view() =~= a + b);
    r
}

// ---------------------------------------------------------------------------
// Laws
// ---------------------------------------------------------------------------
/// What is always denied: what programs keep their credentials in below the home
/// directory, the password files of the system, and whatever is named as secrets are.
/// All of it is denied, and nothing else.
pub proof fn what_is_always_denied(style: Style, home: Seq<char>, r: FsRuleView)
    ensures
        deny_rules(style, home).contains(r) <==> r.access == FsAccess::Deny && {
            ||| !r.glob && (r.path == native::joined(style, home, ".ssh"@) || r.path
                == native::joined(style, home, ".gnupg"@) || r.path == native::joined(
                style,
                home,
                ".aws"@,
            ) || r.path == native::joined(style, home, ".azure"@) || r.path == native::joined(
                style,
                home,
                ".kube"@,
            ) || r.path == native::joined(style, home, ".docker"@) || r.path == native::joined(
                style,
                home,
                ".config/gcloud"@,
            ) || r.path == native::joined(style, home, ".config/gh"@) || r.path == native::joined(
                style,
                home,
                ".netrc"@,
            ) || r.path == native::joined(style, home, "Library/Keychains"@) || r.path
                == native::joined(style, home, "Library/IdentityServices"@))
            ||| !r.glob && (r.path == "/etc/shadow"@ || r.path == "/etc/gshadow"@ || r.path
                == "/etc/sudoers"@ || r.path == "/etc/master.passwd"@)
            ||| r.glob && (r.path == "**/.env"@ || r.path == "**/.env.*"@ || r.path
                == "**/.env.local"@ || r.path == "**/*.pem"@ || r.path == "**/*.key"@ || r.path
                == "**/*.p12"@ || r.path == "**/*.pfx"@ || r.path == "**/id_rsa"@ || r.path
                == "**/id_ed25519"@ || r.path == "**/id_ecdsa"@ || r.path
                == "**/credentials.json"@ || r.path == "**/.netrc"@ || r.path
                == "**/secrets.yaml"@ || r.path == "**/secrets.yml"@)
        },
{
    let a = credential_suffixes();
    let b = system_secrets();
    let c = secret_patterns();
    let all = deny_rules(style, home);
    assert forall|i: int| 0 <= i < 11 implies #[trigger] all[i] == denial(
        native::joined(style, home, a[i]),
        false,
    ) by {}
    assert forall|i: int| 11 <= i < 15 implies #[trigger] all[i] == denial(b[i - 11], false) by {}
    assert forall|i: int| 15 <= i < 29 implies #[trigger] all[i] == denial(c[i - 15], true) by {}
    assert(all.len() == 29);
    assert(all[0] == denial(native::joined(style, home, ".ssh"@), false));
    assert(all[1] == denial(native::joined(style, home, ".gnupg"@), false));
    assert(all[2] == denial(native::joined(style, home, ".aws"@), false));
    assert(all[3] == denial(native::joined(style, home, ".azure"@), false));
    assert(all[4] == denial(native::joined(style, home, ".kube"@), false));
    assert(all[5] == denial(native::joined(style, home, ".docker"@), false));
    assert(all[6] == denial(native::joined(style, home, ".config/gcloud"@), false));
    assert(all[7] == denial(native::joined(style, home, ".config/gh"@), false));
    assert(all[8] == denial(native::joined(style, home, ".netrc"@), false));
    assert(all[9] == denial(native::joined(style, home, "Library/Keychains"@), false));
    assert(all[10] == denial(native::joined(style, home, "Library/IdentityServices"@), false));
    assert(all[11] == denial("/etc/shadow"@, false));
    assert(all[12] == denial("/etc/gshadow"@, false));
    assert(all[13] == denial("/etc/sudoers"@, false));
    assert(all[14] == denial("/etc/master.passwd"@, false));
    assert(all[15] == denial("**/.env"@, true));
    assert(all[16] == denial("**/.env.*"@, true));
    assert(all[17] == denial("**/.env.local"@, true));
    assert(all[18] == denial("**/*.pem"@, true));
    assert(all[19] == denial("**/*.key"@, true));
    assert(all[20] == denial("**/*.p12"@, true));
    assert(all[21] == denial("**/*.pfx"@, true));
    assert(all[22] == denial("**/id_rsa"@, true));
    assert(all[23] == denial("**/id_ed25519"@, true));
    assert(all[24] == denial("**/id_ecdsa"@, true));
    assert(all[25] == denial("**/credentials.json"@, true));
    assert(all[26] == denial("**/.netrc"@, true));
    assert(all[27] == denial("**/secrets.yaml"@, true));
    assert(all[28] == denial("**/secrets.yml"@, true));
    if all.contains(r) {
        let i = choose|i: int| 0 <= i < all.len() && all[i] == r;
        assert(0 <= i < 29);
        if i < 11 {
            assert(i == 0 || i == 1 || i == 2 || i == 3 || i == 4 || i == 5 || i == 6 || i == 7 || i
                == 8 || i == 9 || i == 10);
        } else if i < 15 {
            assert(i == 11 || i == 12 || i == 13 || i == 14);
        } else {
            assert(i == 15 || i == 16 || i == 17 || i == 18 || i == 19 || i == 20 || i == 21 || i
                == 22 || i == 23 || i == 24 || i == 25 || i == 26 || i == 27 || i == 28);
        }
    }
}

} // verus!
