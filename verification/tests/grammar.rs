use regex::Regex;
use rudder_package::versions::{
    PluginVersion, RudderVersion, RudderVersionMode, VersionErrorKind,
};

const PIECES: [&str; 20] = [
    "", "0", "1", "12", "007", "4294967295", "4294967296", ".", "-", "-nightly", "nightly", "~",
    "~alpha", "~beta", "~rc", "~git", "x", " ", "\n", "\u{663}",
];

fn texts() -> Vec<String> {
    let mut all = Vec::new();
    for a in PIECES {
        for b in PIECES {
            for c in PIECES {
                all.push(format!("1.2{}{}{}", a, b, c));
                all.push(format!("1.2.3{}{}{}", a, b, c));
                all.push(format!("{}{}{}", a, b, c));
                all.push(format!("{}.{}.{}", a, b, c));
                all.push(format!("{}.{}{}", a, b, c));
            }
        }
    }
    all
}

fn plugin_by_pattern(raw: &str, whole: &Regex, nightly: &Regex) -> Option<PluginVersion> {
    let nightly = nightly.is_match(raw);
    let caps = whole.captures(raw)?;
    let major: u32 = caps["major"].parse().ok()?;
    let minor: u32 = caps["minor"].parse().ok()?;
    Some(PluginVersion { major, minor, nightly })
}

#[test]
fn plugin_versions_are_those_of_the_pattern() {
    let whole = Regex::new(r"^(?<major>\d+)\.(?<minor>\d+)(-nightly)?$").unwrap();
    let nightly = Regex::new(r".*-nightly$").unwrap();
    let mut accepted = 0;
    for raw in texts() {
        let expected = plugin_by_pattern(&raw, &whole, &nightly);
        assert_eq!(PluginVersion::from_str(&raw).ok(), expected, "{:?}", raw);
        if expected.is_some() {
            accepted += 1;
        }
    }
    assert!(accepted > 100);
}

enum ByPattern {
    Refused,
    OtherDigits,
    TooLarge,
    Followed(RudderVersion),
    Exact(RudderVersion),
}

struct Patterns {
    version: Regex,
    stages: Vec<(Regex, Regex, u8)>,
}

fn patterns() -> Patterns {
    let stage = |tag: &str, kind: u8| {
        (
            Regex::new(&format!(r"^~{}(?<version>\d+)", tag)).unwrap(),
            Regex::new(&format!(r"^~{}(?<version>\d+)$", tag)).unwrap(),
            kind,
        )
    };
    Patterns {
        version: Regex::new(r"^(?<major>\d+)\.(?<minor>\d+)\.(?<patch>\d+)(?<mode>.*)$").unwrap(),
        stages: vec![stage("alpha", 0), stage("beta", 1), stage("rc", 2), stage("git", 3)],
    }
}

fn rudder_by_pattern(raw: &str, p: &Patterns) -> ByPattern {
    let Some(caps) = p.version.captures(raw) else { return ByPattern::Refused };
    let (Ok(major), Ok(minor), Ok(patch)) = (
        caps["major"].parse::<u32>(),
        caps["minor"].parse::<u32>(),
        caps["patch"].parse::<u32>(),
    ) else {
        return ByPattern::Refused;
    };
    let suffix = &caps["mode"];
    let version = |mode| RudderVersion { major, minor, patch, mode };
    if suffix.is_empty() {
        return ByPattern::Exact(version(RudderVersionMode::Final));
    }
    for (prefix, exact, kind) in &p.stages {
        if let Some(stage) = prefix.captures(suffix) {
            if !stage["version"].bytes().all(|b| b.is_ascii_digit()) {
                return ByPattern::OtherDigits;
            }
            let mode = if *kind == 3 {
                RudderVersionMode::Final
            } else {
                let Ok(n) = stage["version"].parse::<u32>() else {
                    return if exact.is_match(suffix) {
                        ByPattern::TooLarge
                    } else {
                        ByPattern::Refused
                    };
                };
                match kind {
                    0 => RudderVersionMode::Alpha { version: n },
                    1 => RudderVersionMode::Beta { version: n },
                    _ => RudderVersionMode::Rc { version: n },
                }
            };
            return if exact.is_match(suffix) {
                ByPattern::Exact(version(mode))
            } else {
                ByPattern::Followed(version(mode))
            };
        }
    }
    ByPattern::Refused
}

#[test]
fn host_versions_are_those_of_the_patterns_with_nothing_behind_the_stage() {
    let p = patterns();
    let (mut exact, mut followed) = (0, 0);
    for raw in texts() {
        let mine = RudderVersion::from_str(&raw);
        match rudder_by_pattern(&raw, &p) {
            ByPattern::Exact(v) => {
                exact += 1;
                assert_eq!(mine.ok(), Some(v), "{:?}", raw);
            }
            ByPattern::Followed(_) => {
                followed += 1;
                assert!(mine.is_err(), "{:?}", raw);
            }
            ByPattern::TooLarge => {
                assert_eq!(mine.unwrap_err().kind, VersionErrorKind::NumberTooLarge, "{:?}", raw)
            }
            ByPattern::OtherDigits | ByPattern::Refused => assert!(mine.is_err(), "{:?}", raw),
        }
    }
    assert!(exact > 100);
    assert!(followed > 100);
}
