//! Tests for the configuration model and the reconciliation engine.

use batchcensor::config::{ConfigError, Files, ReplaceFile};
use batchcensor::reconcile::{tasks_for, dir_modified, split_listing, Outcome, ReconcileError, Task};
use batchcensor::relpath::RelPath;
use batchcensor::{Config, ReplaceDir, Transcript};

fn transcript(text: &str) -> Transcript {
    Transcript::parse(text).expect("valid transcript")
}

#[test]
fn files_three_shapes_iterate_alike() {
    let list = Files::List(vec![ReplaceFile {
        path: RelPath::from_str("a"),
        transcript: Some(transcript("[w]{^-$}")),
        replace: Vec::new(),
    }]);
    let mapping = Files::Mapping(vec![(RelPath::from_str("a"), transcript("[w]{^-$}"))]);
    let maps = Files::ListOfMappings(vec![
        vec![(RelPath::from_str("a"), transcript("[w]{^-$}"))],
        vec![],
    ]);

    for files in [list, mapping, maps] {
        let entries = files.iter();
        assert_eq!(1, entries.len());
        assert_eq!("a", entries[0].path.as_string());
        assert!(entries[0].transcript.is_some());
        assert!(!files.is_empty());
    }
    assert!(Files::ListOfMappings(vec![vec![], vec![]]).is_empty());
}

#[test]
fn files_mapping_insert_replaces_in_place() {
    let files = Files::Mapping(vec![
        (RelPath::from_str("a"), transcript("[x]")),
        (RelPath::from_str("b"), transcript("[y]")),
    ]);
    let mut dir = ReplaceDir::new(RelPath::from_str("d"));
    dir.files = files;
    dir.insert_file(None, RelPath::from_str("a"), transcript("[z]{^-$}"))
        .expect("insert");
    let entries = dir.files.iter();
    assert_eq!(2, entries.len());
    assert_eq!("a", entries[0].path.as_string());
    let t = entries[0].transcript.as_ref().expect("transcript");
    assert_eq!("[z]{^-$}", t.text);
    assert_eq!("b", entries[1].path.as_string());
}

#[test]
fn dir_insert_file_strips_and_checks() {
    let mut dir = ReplaceDir {
        path: RelPath::from_str("d"),
        prefix: Some(String::from("pre_")),
        suffix: Some(String::from("_suf")),
        file_extension: Some(String::from("wav")),
        files: Files::List(vec![]),
    };
    dir.insert_file(None, RelPath::from_str("pre_word_suf.wav"), transcript("[a]"))
        .expect("insert");
    let entries = dir.files.iter();
    assert_eq!("word", entries[0].path.as_string());

    assert_eq!(
        Err(ConfigError::ExtensionMismatch),
        dir.insert_file(None, RelPath::from_str("pre_word_suf.ogg"), transcript("[a]"))
    );
    assert_eq!(
        Err(ConfigError::PrefixMismatch),
        dir.insert_file(None, RelPath::from_str("word_suf.wav"), transcript("[a]"))
    );
    assert_eq!(
        Err(ConfigError::SuffixMismatch),
        dir.insert_file(None, RelPath::from_str("pre_word.wav"), transcript("[a]"))
    );
}

#[test]
fn dir_insert_file_without_name_is_an_error() {
    let mut dir = ReplaceDir {
        path: RelPath::from_str("d"),
        prefix: Some(String::from("pre_")),
        suffix: None,
        file_extension: None,
        files: Files::List(vec![]),
    };
    assert_eq!(
        Err(ConfigError::NoFileName),
        dir.insert_file(None, RelPath::from_str(""), transcript("[a]"))
    );
}

#[test]
fn dir_contains_rules() {
    let dir = ReplaceDir {
        path: RelPath::from_str("d"),
        prefix: Some(String::from("pre_")),
        suffix: Some(String::from("_suf")),
        file_extension: Some(String::from("wav")),
        files: Files::List(vec![]),
    };
    assert!(dir.contains(&RelPath::from_str("pre_word_suf.wav")));
    assert!(!dir.contains(&RelPath::from_str("word_suf.wav")));
    assert!(!dir.contains(&RelPath::from_str("pre_word.wav")));
    assert!(!dir.contains(&RelPath::from_str("pre_word_suf.ogg")));
    assert!(!dir.contains(&RelPath::from_str("")));
}

#[test]
fn config_insert_file_finds_or_creates_dir() {
    let mut config = Config {
        file_extension: Some(String::from("wav")),
        dirs: vec![ReplaceDir::new(RelPath::from_str("d"))],
    };
    config
        .insert_file(&RelPath::from_str("d"), RelPath::from_str("one.wav"), transcript("[a]"))
        .expect("insert into existing dir");
    assert_eq!(1, config.dirs.len());
    assert_eq!("one", config.dirs[0].files.iter()[0].path.as_string());

    config
        .insert_file(&RelPath::from_str("other"), RelPath::from_str("two.wav"), transcript("[b]"))
        .expect("insert into fresh dir");
    assert_eq!(2, config.dirs.len());
    assert_eq!("other", config.dirs[1].path.as_string());
    assert_eq!("two", config.dirs[1].files.iter()[0].path.as_string());
}

#[test]
fn config_optimize_sorts_dirs_by_path() {
    let mut config = Config {
        file_extension: None,
        dirs: vec![
            ReplaceDir::new(RelPath::from_str("zeta")),
            ReplaceDir::new(RelPath::from_str("alpha")),
            ReplaceDir::new(RelPath::from_str("midway")),
        ],
    };
    config.optimize().expect("optimize");
    let order: Vec<String> = config.dirs.iter().map(|d| d.path.as_string()).collect();
    assert_eq!(vec!["alpha", "midway", "zeta"], order);
}

#[test]
fn config_optimize_breaks_path_ties_by_prefix() {
    // Equal paths order by prefix, an absent prefix first.
    let mut first = ReplaceDir::new(RelPath::from_str("dup"));
    first.prefix = Some(String::from("b"));
    let mut second = ReplaceDir::new(RelPath::from_str("dup"));
    second.prefix = Some(String::from("a"));
    let mut config = Config {
        file_extension: None,
        dirs: vec![first, ReplaceDir::new(RelPath::from_str("dup")), second],
    };
    config.optimize().expect("optimize");
    let keys: Vec<(String, Option<String>)> =
        config.dirs.iter().map(|d| (d.path.as_string(), d.prefix.clone())).collect();
    assert_eq!(
        vec![
            (String::from("dup"), None),
            (String::from("dup"), Some(String::from("a"))),
            (String::from("dup"), Some(String::from("b"))),
        ],
        keys
    );
}

#[test]
fn config_optimize_is_stable_on_equal_keys() {
    // Directories equal in path, prefix, suffix and extension keep
    // their relative order; the file lists play no part.
    let mut first = ReplaceDir::new(RelPath::from_str("dup"));
    first.files = Files::List(vec![ReplaceFile {
        path: RelPath::from_str("one"),
        transcript: None,
        replace: Vec::new(),
    }]);
    let second = ReplaceDir::new(RelPath::from_str("dup"));
    let mut config = Config {
        file_extension: None,
        dirs: vec![first, ReplaceDir::new(RelPath::from_str("aaa")), second],
    };
    config.optimize().expect("optimize");
    assert_eq!("aaa", config.dirs[0].path.as_string());
    assert_eq!("dup", config.dirs[1].path.as_string());
    assert_eq!(1, config.dirs[1].files.iter().len());
    assert_eq!("dup", config.dirs[2].path.as_string());
    assert_eq!(0, config.dirs[2].files.iter().len());
}

#[test]
fn split_listing_partitions_by_extension() {
    let listing = vec![
        RelPath::from_str("a.wav"),
        RelPath::from_str("b.txt"),
        RelPath::from_str("c.wav"),
        RelPath::from_str("noext"),
    ];
    let (wavs, others) = split_listing(listing);
    let wav_names: Vec<String> = wavs.iter().map(|p| p.as_string()).collect();
    let other_names: Vec<String> = others.iter().map(|p| p.as_string()).collect();
    assert_eq!(vec!["a.wav", "c.wav"], wav_names);
    assert_eq!(vec!["b.txt", "noext"], other_names);
}

#[test]
fn reconcile_classifies_every_file_once() {
    // Three configured entries: one clean, one with directives, one
    // silenced by a transcript with unresolved words; plus one file
    // on disk that no entry mentions.
    let dir = ReplaceDir {
        path: RelPath::from_str("d"),
        prefix: None,
        suffix: None,
        file_extension: Some(String::from("wav")),
        files: Files::List(vec![
            ReplaceFile {
                path: RelPath::from_str("clean"),
                transcript: None,
                replace: Vec::new(),
            },
            ReplaceFile {
                path: RelPath::from_str("bad"),
                transcript: Some(transcript("[w]{^-$}")),
                replace: Vec::new(),
            },
            ReplaceFile {
                path: RelPath::from_str("unresolved"),
                transcript: Some(transcript("[w]")),
                replace: Vec::new(),
            },
        ]),
    };
    let wavs = vec![
        RelPath::from_str("clean.wav"),
        RelPath::from_str("bad.wav"),
        RelPath::from_str("unresolved.wav"),
        RelPath::from_str("stray.wav"),
    ];
    let outcomes = dir.reconcile(None, &wavs).expect("reconcile");
    assert_eq!(4, outcomes.len());
    assert!(matches!(outcomes[0].1, Outcome::CopyClean));
    assert!(matches!(outcomes[1].1, Outcome::Process(_)));
    assert!(matches!(outcomes[2].1, Outcome::SilencedMissing));
    assert!(matches!(outcomes[3].1, Outcome::Unaccounted));
    for (i, (path, _)) in outcomes.iter().enumerate() {
        assert_eq!(wavs[i].as_string(), path.as_string());
    }
    assert!(dir_modified(&outcomes));

    let tasks = tasks_for(&outcomes).expect("tasks");
    assert_eq!(4, tasks.len());
    assert!(matches!(&tasks[0], Task::Copy(_, _)));
    assert!(matches!(&tasks[1], Task::Process(_, _, _)));
    assert!(matches!(&tasks[2], Task::Silence(_, _)));
    assert!(matches!(&tasks[3], Task::Silence(_, _)));
}

#[test]
fn reconcile_enumeration_order_gives_indices() {
    let dir = ReplaceDir {
        path: RelPath::from_str("d"),
        prefix: None,
        suffix: None,
        file_extension: Some(String::from("wav")),
        files: Files::List(vec![
            ReplaceFile {
                path: RelPath::from_str("take_$"),
                transcript: None,
                replace: Vec::new(),
            },
            ReplaceFile {
                path: RelPath::from_str("take_$"),
                transcript: None,
                replace: Vec::new(),
            },
        ]),
    };
    let wavs = vec![RelPath::from_str("take_1.wav"), RelPath::from_str("take_2.wav")];
    let outcomes = dir.reconcile(None, &wavs).expect("reconcile");
    assert!(matches!(outcomes[0].1, Outcome::CopyClean));
    assert!(matches!(outcomes[1].1, Outcome::CopyClean));
    assert!(!dir_modified(&outcomes));
}

#[test]
fn reconcile_pass_chains_over_shared_listing() {
    // Two directory entries share one physical directory; the second
    // claims only what the first left open, and settled slots are
    // never touched.
    let dir1 = ReplaceDir {
        path: RelPath::from_str("d"),
        prefix: None,
        suffix: None,
        file_extension: Some(String::from("wav")),
        files: Files::List(vec![ReplaceFile {
            path: RelPath::from_str("clean"),
            transcript: None,
            replace: Vec::new(),
        }]),
    };
    let dir2 = ReplaceDir {
        path: RelPath::from_str("d"),
        prefix: None,
        suffix: None,
        file_extension: Some(String::from("wav")),
        files: Files::List(vec![ReplaceFile {
            path: RelPath::from_str("other"),
            transcript: Some(transcript("[w]{^-$}")),
            replace: Vec::new(),
        }]),
    };
    let wavs = vec![
        RelPath::from_str("clean.wav"),
        RelPath::from_str("other.wav"),
        RelPath::from_str("stray.wav"),
    ];
    let blank: Vec<_> = wavs.iter().map(|p| (p.clone(), Outcome::Unaccounted)).collect();
    let after1 = dir1.reconcile_pass(None, &wavs, blank).expect("first pass");
    assert!(matches!(after1[0].1, Outcome::CopyClean));
    assert!(matches!(after1[1].1, Outcome::Unaccounted));
    assert!(matches!(after1[2].1, Outcome::Unaccounted));
    let after2 = dir2.reconcile_pass(None, &wavs, after1).expect("second pass");
    assert!(matches!(after2[0].1, Outcome::CopyClean));
    assert!(matches!(after2[1].1, Outcome::Process(_)));
    assert!(matches!(after2[2].1, Outcome::Unaccounted));
}

#[test]
fn reconcile_unexpected_file_is_an_error() {
    let dir = ReplaceDir {
        path: RelPath::from_str("d"),
        prefix: None,
        suffix: None,
        file_extension: Some(String::from("wav")),
        files: Files::List(vec![ReplaceFile {
            path: RelPath::from_str("ghost"),
            transcript: None,
            replace: Vec::new(),
        }]),
    };
    let wavs = vec![RelPath::from_str("other.wav")];
    match dir.reconcile(None, &wavs) {
        Err(ReconcileError::UnexpectedFile { path }) => {
            assert_eq!("ghost.wav", path.as_string());
        }
        other => panic!("expected an unexpected-file error, got {:?}", other),
    }
}

#[test]
fn tasks_for_rejects_path_without_name() {
    let outcomes = vec![(RelPath::from_str(""), Outcome::CopyClean)];
    match tasks_for(&outcomes) {
        Err(ReconcileError::NoFileName { path }) => {
            assert_eq!("", path.as_string());
        }
        other => panic!("expected a no-file-name error, got {:?}", other),
    }
}
