use abyss::fs::backend::S3Provider;
use abyss::fs::connect::{
    claim_connection, claim_menu, cloud_connection, cloud_provider_menu, volume_connection, connection_message, env_value, namespace_menu,
    provider_name, storage_choice, storage_menu, storage_prompt, volume_menu, CloudConnection, ConnectError,
    StorageChoice,
};
use abyss::fs::types::{PvcInfo, StorageInfo};
use abyss::app::ActivePane;

fn env(pairs: &[(&str, &str)]) -> Vec<(String, String)> {
    pairs.iter().map(|(k, v)| (k.to_string(), v.to_string())).collect()
}

#[test]
fn menus_and_choices() {
    let first = storage_menu(false);
    assert_eq!(first[0].name, "📁 Local Filesystem");
    assert_eq!(first[2].name, "☸ PersistentVolumeClaims (PVC) - Namespace scoped");
    assert_eq!(storage_choice(&first[2].name), StorageChoice::Claims);
    let menu = storage_menu(true);
    assert_eq!(menu.len(), 4);
    assert_eq!(menu[0].name, "📂 Local Filesystem");
    assert!(menu.iter().all(|e| e.is_dir && e.size == 0));
    assert_eq!(storage_choice(&menu[0].name), StorageChoice::Local);
    assert_eq!(storage_choice(&menu[1].name), StorageChoice::Volumes);
    assert_eq!(storage_choice(&menu[2].name), StorageChoice::Claims);
    assert_eq!(storage_choice(&menu[3].name), StorageChoice::Cloud);
    assert_eq!(storage_choice("elsewhere"), StorageChoice::Nothing);
    assert_eq!(
        storage_prompt(ActivePane::Right),
        "RIGHT pane: Select storage type (↑/↓ to navigate, Enter to select, Esc to cancel)"
    );
    let clouds = cloud_provider_menu();
    assert_eq!(clouds.len(), 7);
    assert_eq!(clouds[0].name, "☁ AWS S3");
    assert_eq!(provider_name(&clouds[6].name), "Wasabi");
    assert_eq!(provider_name("☁ ☁ x"), "x");
    assert_eq!(provider_name("plain"), "plain");
    let vols = vec![
        StorageInfo {
            name: "pv-1".to_string(),
            capacity: "10Gi".to_string(),
            access_modes: vec![],
            claim_ref: Some("ns/data".to_string()),
            status: "Bound".to_string(),
            is_pv: true,
        },
        StorageInfo {
            name: "pv-2".to_string(),
            capacity: "1Gi".to_string(),
            access_modes: vec![],
            claim_ref: None,
            status: "Available".to_string(),
            is_pv: true,
        },
    ];
    let (lines, prompt) = volume_menu(&vols);
    assert_eq!(lines[0].name, "pv-1 (10Gi) - ns/data");
    assert_eq!(lines[1].name, "pv-2 (1Gi) - Available");
    assert_eq!(prompt, "Select PV (↑/↓ to navigate, Enter to select, Esc to cancel)");
    assert_eq!(volume_menu(&[]).1, "No PVs found in cluster");
    assert_eq!(
        volume_connection(&lines[0].name),
        ("pv-1".to_string(), "default".to_string(), "/data".to_string(), "Connected to PV: pv-1".to_string())
    );
    let claims = vec![PvcInfo {
        name: "data".to_string(),
        namespace: "prod".to_string(),
        capacity: "5Gi".to_string(),
        access_modes: vec!["ReadWriteOnce".to_string()],
    }];
    let (lines, message) = claim_menu("prod", &claims);
    assert_eq!(lines[0].name, "data (5Gi)");
    assert_eq!(message, "Select PVC (↑/↓ to navigate, Enter to select, Esc to cancel)");
    assert_eq!(claim_menu("empty", &[]).1, "No PVCs found in namespace 'empty'");
    assert_eq!(
        claim_connection(&lines[0].name),
        ("data".to_string(), "/data".to_string(), "Connected to PVC: data".to_string())
    );
    assert_eq!(claim_connection("plain").0, "plain");
    let ns = namespace_menu(&["default".to_string(), "prod".to_string()]);
    assert_eq!(ns[1].name, "prod");
    assert!(ns[1].is_dir);
}

#[test]
fn cloud_connections_from_the_environment() {
    let vars = env(&[("S3_BUCKET", "b"), ("AWS_ACCESS_KEY_ID", "k"), ("S3_BUCKET", "later")]);
    assert_eq!(env_value(&vars, "S3_BUCKET"), Some("b".to_string()));
    assert_eq!(env_value(&vars, "NOPE"), None);
    match cloud_connection("AWS S3", &vars).unwrap() {
        CloudConnection::S3(s) => {
            assert_eq!(s.bucket, "b");
            assert_eq!(s.region, "us-east-1");
            assert!(matches!(s.provider, S3Provider::Aws));
            assert_eq!(s.credentials, None);
        }
        other => panic!("unexpected {:?}", other),
    }
    let vars = env(&[
        ("S3_BUCKET", "b"),
        ("AWS_REGION", "eu-west-1"),
        ("AWS_ACCESS_KEY_ID", "k"),
        ("AWS_SECRET_ACCESS_KEY", "s"),
    ]);
    match cloud_connection("AWS S3", &vars).unwrap() {
        CloudConnection::S3(s) => {
            assert_eq!(s.region, "eu-west-1");
            assert_eq!(s.credentials, Some(("k".to_string(), "s".to_string())));
        }
        other => panic!("unexpected {:?}", other),
    }
    assert_eq!(
        cloud_connection("AWS S3", &[]).unwrap_err(),
        ConnectError::MissingEnv { name: "S3_BUCKET".to_string() }
    );
    match cloud_connection("Google Cloud Storage (GCS)", &env(&[("GCS_BUCKET", "g")])).unwrap() {
        CloudConnection::Gcs { bucket, credentials_file } => {
            assert_eq!(bucket, "g");
            assert_eq!(credentials_file, None);
        }
        other => panic!("unexpected {:?}", other),
    }
    let r2 = env(&[
        ("R2_BUCKET", "r"),
        ("R2_ACCOUNT_ID", "acct"),
        ("R2_ACCESS_KEY_ID", "k"),
        ("R2_SECRET_ACCESS_KEY", "s"),
    ]);
    match cloud_connection("Cloudflare R2", &r2).unwrap() {
        CloudConnection::S3(s) => {
            assert_eq!(s.region, "acct");
            assert_eq!(
                s.provider.endpoint(&s.region),
                Some("https://acct.r2.cloudflarestorage.com".to_string())
            );
        }
        other => panic!("unexpected {:?}", other),
    }
    let err = cloud_connection("Wasabi", &env(&[("WASABI_BUCKET", "w"), ("WASABI_ACCESS_KEY", "k")])).unwrap_err();
    assert_eq!(err, ConnectError::MissingEnv { name: "WASABI_REGION".to_string() });
    assert_eq!(err.message(), "Missing env var: WASABI_REGION");
    let minio = env(&[("MINIO_BUCKET", "m"), ("MINIO_ACCESS_KEY", "k"), ("MINIO_SECRET_KEY", "s")]);
    match cloud_connection("MinIO (Local/Self-hosted)", &minio).unwrap() {
        CloudConnection::S3(s) => assert_eq!(s.region, "us-east-1"),
        other => panic!("unexpected {:?}", other),
    }
    let err = cloud_connection("Azure", &[]).unwrap_err();
    assert_eq!(err.message(), "Unknown provider: Azure");
    assert_eq!(connection_message("Wasabi", Ok(())), "Connected to Wasabi");
    assert_eq!(connection_message("Wasabi", Err(err.message())), "❌ Connection failed: Unknown provider: Azure");
}
