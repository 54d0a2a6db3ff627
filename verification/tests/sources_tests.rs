use mcupdate::bootstrap_resolver::{
    curseforge_batch_resolution, modrinth_resolution, resolve_response, resolver_lookups,
    unresolved_candidates, BootstrapCandidate,
};
use mcupdate::curseforge::{
    attach_curseforge_sources, curseforge_lookup_enabled, curseforge_sources, fingerprint_batches, fingerprint_candidate,
    murmur2_hash32, CurseForgeConfig, CurseForgeFile, FingerprintCandidate,
};
use mcupdate::external_sources::{attach_sources, candidate_indices};
use mcupdate::modrinth::{
    attach_modrinth_sources, hash_batches, modrinth_length_error, modrinth_sources, sha1_candidate, ModrinthConfig,
    ModrinthFile, ModrinthVersion, Sha1Candidate,
};
use mcupdate::version_meta::{ExternalSource, FileChange};

fn update(path: &str, source: Option<ExternalSource>) -> FileChange {
    FileChange::UpdateFile {
        path: path.to_owned(),
        hash: "h".to_owned(),
        len: 3,
        modified: 0,
        offset: 0,
        external_source: source,
    }
}

fn source(provider: &str, url: &str) -> ExternalSource {
    ExternalSource {
        provider: provider.to_owned(),
        url: url.to_owned(),
        fallback_to_mcpatch: true,
    }
}

#[test]
fn only_mod_jars_without_a_source_are_looked_up() {
    let changes = vec![
        update(".minecraft/mods/a.jar", None),
        update(".minecraft/config/a.jar", None),
        FileChange::DeleteFile {
            path: ".minecraft/mods/b.jar".to_owned(),
        },
        update(".minecraft/mods/c.jar", Some(source("modrinth", "https://x"))),
        update(".minecraft\\MODS\\d.JAR", None),
    ];
    assert_eq!(candidate_indices(&changes), vec![0, 4]);
}

#[test]
fn curseforge_needs_an_api_key_when_enabled() {
    let mut config = CurseForgeConfig::default();
    assert_eq!(curseforge_lookup_enabled(&config), Ok(false));
    config.enabled = true;
    config.api_key = "  ".to_owned();
    assert_eq!(
        curseforge_lookup_enabled(&config).unwrap_err(),
        "CurseForge 外部下载已启用，但 api-key 为空"
    );
    config.api_key = "key".to_owned();
    assert_eq!(curseforge_lookup_enabled(&config), Ok(true));
}

#[test]
fn fingerprint_candidates_check_the_scanned_length() {
    let path = ".minecraft/mods/a.jar".to_owned();
    let candidate = fingerprint_candidate(&path, 3, "a.jar", b"abc").unwrap();
    assert_eq!(candidate.fingerprint, murmur2_hash32(b"abc", 1));
    assert_eq!(candidate.len, 3);
    assert_eq!(
        fingerprint_candidate(&path, 4, "a.jar", b"abc").unwrap_err(),
        "CurseForge 候选文件长度在扫描中变化: a.jar"
    );
}

#[test]
fn lookups_are_sent_in_full_batches() {
    let candidates = (0..2500u32)
        .map(|i| FingerprintCandidate {
            path: format!("m{i}.jar"),
            len: 1,
            fingerprint: i,
        })
        .collect::<Vec<_>>();
    let batches = fingerprint_batches(&candidates);
    assert_eq!(batches.len(), 3);
    assert_eq!(batches[0].len(), 1000);
    assert_eq!(batches[1].len(), 1000);
    assert_eq!(batches[2].len(), 500);
    assert_eq!(batches[2][499], 2499);
    assert!(fingerprint_batches(&Vec::new()).is_empty());

    let hashes = (0..150)
        .map(|i| Sha1Candidate {
            path: format!("m{i}.jar"),
            len: 1,
            sha1: format!("{i}"),
        })
        .collect::<Vec<_>>();
    let batches = hash_batches(&hashes);
    assert_eq!(batches.len(), 1);
    assert_eq!(batches[0].len(), 150);
}

#[test]
fn curseforge_matches_need_the_same_length() {
    let mut config = CurseForgeConfig::default();
    config.cdn_base_url = "https://cdn.example/files/".to_owned();
    config.fallback_to_mcpatch = false;
    let candidates = vec![
        FingerprintCandidate {
            path: "a.jar".to_owned(),
            len: 10,
            fingerprint: 7,
        },
        FingerprintCandidate {
            path: "b.jar".to_owned(),
            len: 20,
            fingerprint: 8,
        },
    ];
    let files = vec![
        CurseForgeFile {
            id: 1234567,
            file_name: "A mod.jar".to_owned(),
            file_length: 10,
            file_fingerprint: 7,
        },
        CurseForgeFile {
            id: 2,
            file_name: "b.jar".to_owned(),
            file_length: 21,
            file_fingerprint: 8,
        },
    ];
    let pairs = curseforge_sources(&candidates, &files, &config);
    assert_eq!(pairs.len(), 1);
    assert_eq!(pairs[0].0, "a.jar");
    assert_eq!(pairs[0].1.provider, "curseforge");
    assert_eq!(
        pairs[0].1.url,
        "https://cdn.example/files/1234/567/A%20mod.jar"
    );
    assert!(!pairs[0].1.fallback_to_mcpatch);
}

#[test]
fn modrinth_matches_need_size_and_sha1() {
    let chunks = vec![b"ab".to_vec(), b"c".to_vec()];
    let candidate = sha1_candidate(&"a.jar".to_owned(), 3, &chunks);
    assert_eq!(candidate.sha1, "a9993e364706816aba3e25717850c26c9cd0d89d");
    assert_eq!(
        modrinth_length_error("a.jar", 3, 4).unwrap(),
        "Modrinth 候选文件长度在扫描中变化: a.jar"
    );
    assert_eq!(modrinth_length_error("a.jar", 3, 3), None);

    let versions = vec![(
        candidate.sha1.clone(),
        ModrinthVersion {
            files: vec![
                ModrinthFile {
                    sha1: Some(candidate.sha1.to_uppercase()),
                    url: "https://wrong-size".to_owned(),
                    size: 4,
                },
                ModrinthFile {
                    sha1: Some(candidate.sha1.to_uppercase()),
                    url: "https://cdn.modrinth.com/a.jar".to_owned(),
                    size: 3,
                },
            ],
        },
    )];
    let pairs = modrinth_sources(&vec![candidate], &versions, &ModrinthConfig::default());
    assert_eq!(pairs.len(), 1);
    assert_eq!(pairs[0].1.provider, "modrinth");
    assert_eq!(pairs[0].1.url, "https://cdn.modrinth.com/a.jar");
    assert!(pairs[0].1.fallback_to_mcpatch);
}

#[test]
fn each_source_goes_to_the_first_file_at_its_path() {
    let mut changes = vec![
        update("a.jar", None),
        update("b.jar", None),
        update("a.jar", None),
    ];
    let pairs = vec![
        ("a.jar".to_owned(), source("modrinth", "https://old")),
        ("a.jar".to_owned(), source("curseforge", "https://new")),
        ("c.jar".to_owned(), source("modrinth", "https://c")),
    ];
    assert_eq!(attach_sources(&mut changes, &pairs), 1);
    match &changes[0] {
        FileChange::UpdateFile {
            external_source, ..
        } => {
            assert_eq!(external_source.as_ref().unwrap().url, "https://new");
        }
        _ => panic!("expected a file"),
    }
    for change in &changes[1..] {
        match change {
            FileChange::UpdateFile {
                external_source, ..
            } => assert!(external_source.is_none()),
            _ => panic!("expected a file"),
        }
    }
}

fn candidate(path: &str, fingerprint: u32) -> BootstrapCandidate {
    BootstrapCandidate {
        path: path.to_owned(),
        length: 3,
        sha256: "a".repeat(64),
        sha1: format!("{:040}", fingerprint),
        curseforge_fingerprint: fingerprint,
    }
}

#[test]
fn resolver_asks_curseforge_only_for_what_modrinth_left() {
    let mut config = CurseForgeConfig::default();
    config.enabled = true;
    config.api_key = " ".to_owned();
    assert_eq!(resolver_lookups(true, &config), (true, false));
    config.api_key = "key".to_owned();
    assert_eq!(resolver_lookups(false, &config), (false, true));

    let candidates = vec![
        candidate(".minecraft/mods/a.jar", 1),
        candidate(".minecraft/mods/b.jar", 2),
        candidate(".minecraft/mods/c.jar", 3),
    ];
    let versions = vec![(
        candidates[0].sha1.clone(),
        ModrinthVersion {
            files: vec![ModrinthFile {
                sha1: Some(candidates[0].sha1.clone()),
                url: "https://cdn.modrinth.com/a.jar".to_owned(),
                size: 3,
            }],
        },
    )];
    let mut pairs = modrinth_resolution(&candidates, &versions);
    assert_eq!(pairs.len(), 1);
    assert!(!pairs[0].1.fallback_to_mcpatch);

    let rest = unresolved_candidates(&candidates, &pairs);
    assert_eq!(rest.len(), 2);
    assert_eq!(rest[0].path, ".minecraft/mods/b.jar");

    config.cdn_base_url = "https://cdn.example".to_owned();
    let files = vec![CurseForgeFile {
        id: 5,
        file_name: "b.jar".to_owned(),
        file_length: 3,
        file_fingerprint: 2,
    }];
    pairs.extend(curseforge_batch_resolution(&rest, &files, &config));
    assert_eq!(pairs.len(), 2);
    assert_eq!(pairs[1].1.url, "https://cdn.example/0/5/b.jar");
    assert!(!pairs[1].1.fallback_to_mcpatch);

    let response = resolve_response(&candidates, &pairs);
    assert_eq!(response.schema, 1);
    assert_eq!(response.files.len(), 2);
    assert_eq!(response.files[0].path, ".minecraft/mods/a.jar");
    assert_eq!(response.files[1].external_source.provider, "curseforge");
    assert_eq!(response.unmatched, vec![".minecraft/mods/c.jar".to_owned()]);
}

fn source_of(change: &FileChange) -> Option<(String, String)> {
    match change {
        FileChange::UpdateFile { external_source, .. } => external_source
            .as_ref()
            .map(|s| (s.provider.clone(), s.url.clone())),
        _ => None,
    }
}

#[test]
fn modrinth_attaches_nothing_when_disabled_or_when_a_lookup_failed() {
    let mut changes = vec![update(".minecraft/mods/a.jar", None)];
    let candidates = vec![Sha1Candidate {
        path: ".minecraft/mods/a.jar".to_owned(),
        len: 3,
        sha1: "ab".to_owned(),
    }];
    let mut config = ModrinthConfig::default();
    config.enabled = false;
    assert_eq!(
        attach_modrinth_sources(&mut changes, &config, &candidates, Err("unused".to_owned())),
        Ok(0)
    );
    config.enabled = true;
    assert_eq!(
        attach_modrinth_sources(&mut changes, &config, &candidates, Err("down".to_owned())),
        Err("down".to_owned())
    );
    assert_eq!(source_of(&changes[0]), None);
    assert_eq!(
        attach_modrinth_sources(&mut changes, &config, &Vec::new(), Err("unused".to_owned())),
        Ok(0)
    );
}

#[test]
fn modrinth_attaches_the_sources_it_resolves() {
    let mut changes = vec![
        update(".minecraft/mods/a.jar", None),
        update(".minecraft/config/c.txt", None),
    ];
    let candidates = vec![Sha1Candidate {
        path: ".minecraft/mods/a.jar".to_owned(),
        len: 3,
        sha1: "ab".to_owned(),
    }];
    let versions = vec![(
        "ab".to_owned(),
        ModrinthVersion {
            files: vec![ModrinthFile {
                sha1: Some("AB".to_owned()),
                url: "https://cdn.modrinth.com/a.jar".to_owned(),
                size: 3,
            }],
        },
    )];
    let config = ModrinthConfig::default();
    assert_eq!(
        attach_modrinth_sources(&mut changes, &config, &candidates, Ok(versions)),
        Ok(1)
    );
    assert_eq!(
        source_of(&changes[0]),
        Some(("modrinth".to_owned(), "https://cdn.modrinth.com/a.jar".to_owned()))
    );
    assert_eq!(source_of(&changes[1]), None);
}

#[test]
fn curseforge_attaches_only_when_enabled_with_a_key_and_lookups_succeed() {
    let mut changes = vec![update(".minecraft/mods/a.jar", None)];
    let candidates = vec![FingerprintCandidate {
        path: ".minecraft/mods/a.jar".to_owned(),
        len: 3,
        fingerprint: 7,
    }];
    let files = vec![CurseForgeFile {
        id: 1234,
        file_name: "a b.jar".to_owned(),
        file_length: 3,
        file_fingerprint: 7,
    }];
    let mut config = CurseForgeConfig::default();
    assert_eq!(
        attach_curseforge_sources(&mut changes, &config, &candidates, Ok(files.clone())),
        Ok(0)
    );
    config.enabled = true;
    assert_eq!(
        attach_curseforge_sources(&mut changes, &config, &candidates, Ok(files.clone())),
        Err("CurseForge 外部下载已启用，但 api-key 为空".to_owned())
    );
    config.api_key = "key".to_owned();
    assert_eq!(
        attach_curseforge_sources(&mut changes, &config, &candidates, Err("down".to_owned())),
        Err("down".to_owned())
    );
    assert_eq!(source_of(&changes[0]), None);
    assert_eq!(
        attach_curseforge_sources(&mut changes, &config, &candidates, Ok(files)),
        Ok(1)
    );
    let (provider, url) = source_of(&changes[0]).unwrap();
    assert_eq!(provider, "curseforge");
    assert!(url.ends_with("/1/234/a%20b.jar"));
}
