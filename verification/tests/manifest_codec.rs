use mrpack_install::codec::{parse_manifest, serialize_manifest};
use mrpack_install::error::InstallError;
use mrpack_install::manifest::{
    EnvType, PackDependency, PackFile, PackFileHash, PackFormat, SideType,
};

fn rich_manifest() -> PackFormat {
    PackFormat {
        game: "minecraft".to_string(),
        format_version: 1,
        version_id: "1.0.0".to_string(),
        name: "Example Pack".to_string(),
        summary: Some("A pack".to_string()),
        files: vec![
            PackFile {
                path: "mods/a.jar".to_string(),
                hashes: vec![
                    (PackFileHash::Sha1, "aafa0343cb5bd4cea29ab0b9a94bbe1f30db6e03".to_string()),
                    (PackFileHash::Sha512, "deadbeef".to_string()),
                    (PackFileHash::Unknown("blake3".to_string()), "0011".to_string()),
                ],
                env: Some(vec![
                    (EnvType::Client, SideType::Required),
                    (EnvType::Server, SideType::Unsupported),
                ]),
                downloads: vec![
                    "https://example.com/a.jar".to_string(),
                    "https://mirror.example.com/a.jar".to_string(),
                ],
                file_size: 1024,
            },
            PackFile {
                path: "config/b.toml".to_string(),
                hashes: vec![],
                env: None,
                downloads: vec!["https://example.com/b.toml".to_string()],
                file_size: 77,
            },
        ],
        dependencies: vec![
            (PackDependency::Minecraft, "1.20.1".to_string()),
            (PackDependency::FabricLoader, "0.14.21".to_string()),
        ],
    }
}

#[test]
fn round_trip_rich_manifest() {
    let m = rich_manifest();
    let text = serialize_manifest(&m);
    let back = parse_manifest(text.as_str()).expect("canonical rendering parses");
    assert_eq!(back, m);
}

#[test]
fn round_trip_minimal_manifest() {
    let m = PackFormat {
        game: "minecraft".to_string(),
        format_version: 1,
        version_id: "v".to_string(),
        name: "n".to_string(),
        summary: None,
        files: vec![],
        dependencies: vec![(PackDependency::Minecraft, "1.19.4".to_string())],
    };
    let text = serialize_manifest(&m);
    assert_eq!(
        text,
        "{\"game\":\"minecraft\",\"formatVersion\":1,\"versionId\":\"v\",\"name\":\"n\",\
         \"summary\":null,\"files\":[],\"dependencies\":{\"minecraft\":\"1.19.4\"}}"
    );
    let back = parse_manifest(text.as_str()).expect("canonical rendering parses");
    assert_eq!(back, m);
}

#[test]
fn round_trip_negative_format_version() {
    let mut m = rich_manifest();
    m.format_version = -3;
    let text = serialize_manifest(&m);
    let back = parse_manifest(text.as_str()).expect("canonical rendering parses");
    assert_eq!(back, m);
}

#[test]
fn round_trip_extreme_numbers() {
    let mut m = rich_manifest();
    m.format_version = i32::MIN;
    m.files[0].file_size = u32::MAX;
    let text = serialize_manifest(&m);
    let back = parse_manifest(text.as_str()).expect("canonical rendering parses");
    assert_eq!(back, m);
    m.format_version = i32::MAX;
    m.files[0].file_size = 0;
    let text = serialize_manifest(&m);
    let back = parse_manifest(text.as_str()).expect("canonical rendering parses");
    assert_eq!(back, m);
}

#[test]
fn parse_rejects_garbage() {
    assert_eq!(parse_manifest(""), Err(InstallError::InvalidManifest));
    assert_eq!(parse_manifest("not json"), Err(InstallError::InvalidManifest));
    assert_eq!(parse_manifest("{\"game\":42}"), Err(InstallError::InvalidManifest));
}

#[test]
fn parse_rejects_trailing_text() {
    let m = rich_manifest();
    let mut text = serialize_manifest(&m).to_string();
    text.push_str("x");
    assert_eq!(parse_manifest(text.as_str()), Err(InstallError::InvalidManifest));
}

#[test]
fn parse_rejects_unknown_dependency_key() {
    let text = "{\"game\":\"minecraft\",\"formatVersion\":1,\"versionId\":\"v\",\"name\":\"n\",\
                \"summary\":null,\"files\":[],\"dependencies\":{\"neoforge\":\"1\"}}";
    assert_eq!(parse_manifest(text), Err(InstallError::InvalidManifest));
}

#[test]
fn hash_tag_from_string() {
    assert_eq!(PackFileHash::from("sha1".to_string()), PackFileHash::Sha1);
    assert_eq!(PackFileHash::from("sha512".to_string()), PackFileHash::Sha512);
    assert_eq!(
        PackFileHash::from("md5".to_string()),
        PackFileHash::Unknown("md5".to_string())
    );
}

#[test]
fn file_lookups() {
    let m = rich_manifest();
    assert_eq!(
        m.files[0].sha1(),
        Some("aafa0343cb5bd4cea29ab0b9a94bbe1f30db6e03".to_string())
    );
    assert_eq!(m.files[1].sha1(), None);
    assert!(!m.files[0].client_unsupported());
    let mut f = m.files[0].clone();
    f.env = Some(vec![(EnvType::Client, SideType::Unsupported)]);
    assert!(f.client_unsupported());
    f.env = Some(vec![(EnvType::Server, SideType::Unsupported)]);
    assert!(!f.client_unsupported());
}

#[test]
fn error_messages() {
    assert_eq!(
        InstallError::MissingManifest.message(),
        "no pack manifest found in mrpack"
    );
    assert_eq!(
        InstallError::UnsupportedGame.message(),
        "pack does not support minecraft"
    );
}

#[test]
fn serialize_env_and_hashes_exact() {
    let f = PackFile {
        path: "mods/a.jar".to_string(),
        hashes: vec![(PackFileHash::Sha1, "ab".to_string())],
        env: Some(vec![(EnvType::Client, SideType::Optional)]),
        downloads: vec!["https://x/a".to_string()],
        file_size: 3,
    };
    let m = PackFormat {
        game: "minecraft".to_string(),
        format_version: 1,
        version_id: "v".to_string(),
        name: "n".to_string(),
        summary: None,
        files: vec![f],
        dependencies: vec![(PackDependency::QuiltLoader, "q1".to_string())],
    };
    let text = serialize_manifest(&m);
    assert_eq!(
        text,
        "{\"game\":\"minecraft\",\"formatVersion\":1,\"versionId\":\"v\",\"name\":\"n\",\
         \"summary\":null,\"files\":[{\"path\":\"mods/a.jar\",\"hashes\":{\"sha1\":\"ab\"},\
         \"env\":{\"client\":\"optional\"},\"downloads\":[\"https://x/a\"],\"fileSize\":3}],\
         \"dependencies\":{\"quilt-loader\":\"q1\"}}"
    );
    assert_eq!(parse_manifest(text.as_str()), Ok(m));
}

#[test]
fn parse_accepts_pretty_printed_reordered_manifest() {
    let text = r#"
    {
        "formatVersion": 1,
        "game": "minecraft",
        "versionId": "1.2.0",
        "name": "Real Pack",
        "dependencies": {
            "minecraft": "1.20.1",
            "fabric-loader": "0.14.21"
        },
        "files": [
            {
                "downloads": [ "https://cdn.example.com/a.jar" ],
                "path": "mods/a.jar",
                "fileSize": 1024,
                "env": { "client": "required", "server": "unsupported" },
                "hashes": { "sha1": "abc", "sha512": "def" }
            }
        ],
        "summary": "A \"quoted\" summary with a tab\there"
    }
    "#;
    let m = parse_manifest(text).expect("real-world rendering parses");
    assert_eq!(m.game, "minecraft");
    assert_eq!(m.format_version, 1);
    assert_eq!(m.name, "Real Pack");
    assert_eq!(
        m.summary,
        Some("A \"quoted\" summary with a tab\there".to_string())
    );
    assert_eq!(m.files.len(), 1);
    assert_eq!(m.files[0].path, "mods/a.jar");
    assert_eq!(m.files[0].file_size, 1024);
    assert_eq!(m.files[0].sha1(), Some("abc".to_string()));
    assert_eq!(
        m.dependencies,
        vec![
            (PackDependency::Minecraft, "1.20.1".to_string()),
            (PackDependency::FabricLoader, "0.14.21".to_string()),
        ]
    );
}

#[test]
fn parse_skips_unknown_fields() {
    let text = r#"{"game":"minecraft","formatVersion":1,"versionId":"v","name":"n",
        "extra":{"nested":[1,2,{"x":true}],"note":null},
        "files":[],"dependencies":{"minecraft":"1.19.4"}}"#;
    let m = parse_manifest(text).expect("unknown fields are skipped");
    assert_eq!(m.version_id, "v");
    assert_eq!(m.files.len(), 0);
}

#[test]
fn parse_accepts_missing_summary_and_env() {
    let text = r#"{"game":"minecraft","formatVersion":1,"versionId":"v","name":"n",
        "files":[{"path":"a.txt","hashes":{},"downloads":["https://x/a"],"fileSize":1}],
        "dependencies":{"minecraft":"1.19.4"}}"#;
    let m = parse_manifest(text).expect("optional fields may be absent");
    assert_eq!(m.summary, None);
    assert_eq!(m.files[0].env, None);
}

#[test]
fn parse_rejects_duplicate_keys() {
    let dup_dep = r#"{"game":"minecraft","formatVersion":1,"versionId":"v","name":"n",
        "summary":null,"files":[],
        "dependencies":{"minecraft":"1.19.4","minecraft":"1.20.1"}}"#;
    assert_eq!(parse_manifest(dup_dep), Err(InstallError::InvalidManifest));
    let dup_hash = r#"{"game":"minecraft","formatVersion":1,"versionId":"v","name":"n",
        "summary":null,
        "files":[{"path":"a","hashes":{"sha1":"x","sha1":"y"},"downloads":["u"],"fileSize":1}],
        "dependencies":{"minecraft":"1.19.4"}}"#;
    assert_eq!(parse_manifest(dup_hash), Err(InstallError::InvalidManifest));
    let dup_field = r#"{"game":"minecraft","game":"minecraft","formatVersion":1,
        "versionId":"v","name":"n","files":[],"dependencies":{"minecraft":"1"}}"#;
    assert_eq!(parse_manifest(dup_field), Err(InstallError::InvalidManifest));
}
