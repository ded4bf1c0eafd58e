use oflh::search::{Field, Query, Scratch};

#[test]
fn semantics() {
    for (field, query, want) in [
        ("Microsoft.IdentityModel.JsonWebTokens.dll", "MIMJWT", true),
        ("FileLockExampleCli.deps.json", "FLEC*.json", true),
        ("FileLockExampleCli.dll", "FLEC.", true),
        ("/File/Lock/Example/Cli.dll", "FLEC*", false),
        ("/FileLock/ExampleCli.dll", "FL*EC.dll", true),
        ("/build/Über.dll", "ÜB*dll", true),
        ("/build/a[1].dll", "*[1]*dll", true),
        ("FileLockExampleCli.dll", "FLEC*FLEC", false),
        ("/alpha/beta/gamma.json", "abg", false),
        ("Micro.Core.dll", "mcrdll", false),
        ("Micro.Core.dll", "MiCoDll", true),
    ] {
        assert_eq!(
            Query::new(query).matches(&[Field::new(field, false)], &mut Scratch::default()),
            want,
            "{query} in {field}"
        );
    }
}

#[test]
fn scores_rank_exact_names_prefixes_and_substrings() {
    let mut scratch = Scratch::default();
    let name = [Field::new("dotnet", true)];
    assert_eq!(Query::new("dotnet").score(&name, &mut scratch), 200);
    assert_eq!(Query::new("dot").score(&name, &mut scratch), 160);
    let plain = [Field::new("/usr/bin/dotnet", false)];
    assert_eq!(Query::new("/usr").score(&plain, &mut scratch), 80);
    assert_eq!(Query::new("bin").score(&plain, &mut scratch), 60);
    assert_eq!(Query::new("u*dotnet").score(&plain, &mut scratch), 30);
    assert_eq!(Query::new("zzz").score(&plain, &mut scratch), 0);
    assert_eq!(Query::new("dot bin").score(&plain, &mut scratch), 120);
    assert_eq!(Query::new("").score(&plain, &mut scratch), 0);
}

#[test]
fn text_is_normalized_and_file_terms_drop_metadata_matches() {
    let mut scratch = Scratch::default();
    let query = Query::new("  424242   FLEC*.json ");
    assert_eq!(query.text(), "424242 flec*.json");
    let metadata = [Field::new("424242", false), Field::new("dotnet", true)];
    assert_eq!(query.file_terms(&metadata, &mut scratch).text(), "flec*.json");
    assert!(Query::new("").is_empty());
    assert!(!query.is_empty());
}

#[test]
fn fields_and_terms_from_their_parts() {
    let chars: Vec<char> = "JsonWeb".chars().collect();
    let lower: Vec<char> = "jsonweb".chars().collect();
    let alnum = vec![true; 7];
    let upper = vec![true, false, false, false, true, false, false];
    let lowercase: Vec<bool> = upper.iter().map(|u| !u).collect();
    let field = Field::from_classes(&chars, lower.clone(), lower.clone(), &alnum, &upper, &lowercase, false);
    let mut scratch = Scratch::default();
    let jw = Query::from_terms(&vec!["jw".chars().collect()]);
    assert!(jw.matches(&[field], &mut scratch));
    // Without the uppercase letter's word start, the abbreviation no longer matches.
    let flat = Field::from_classes(&chars, lower.clone(), lower, &alnum, &vec![false; 7], &vec![true; 7], false);
    assert!(!jw.matches(&[flat], &mut scratch));
    let wild = Query::from_terms(&vec!["js*eb".chars().collect()]);
    assert_eq!(wild.text(), "js*eb");
}
