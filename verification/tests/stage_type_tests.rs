use adaptive_pipeline::parameters::StageParameters;
use adaptive_pipeline::stage::{PipelineStage, StageConfiguration, StageType};

fn create_test_stage(name: &str, stage_type: StageType, algorithm: &str) -> PipelineStage {
    let config = StageConfiguration {
        algorithm: algorithm.to_string(),
        parameters: StageParameters::new(),
        parallel_processing: false,
        chunk_size: None,
    };
    PipelineStage::new(name.to_string(), stage_type, config, 1).unwrap()
}

#[test]
fn test_stage_type_display() {
    assert_eq!(StageType::Compression.to_string(), "compression");
    assert_eq!(StageType::Encryption.to_string(), "encryption");
    assert_eq!(StageType::Checksum.to_string(), "checksum");
    assert_eq!(StageType::PassThrough.to_string(), "passthrough");
}

#[test]
fn test_stage_type_from_str() {
    assert_eq!("compression".parse::<StageType>().unwrap(), StageType::Compression);
    assert_eq!("encryption".parse::<StageType>().unwrap(), StageType::Encryption);
    assert_eq!("checksum".parse::<StageType>().unwrap(), StageType::Checksum);
    assert_eq!("passthrough".parse::<StageType>().unwrap(), StageType::PassThrough);
}

#[test]
fn test_stage_type_from_str_invalid() {
    assert!("invalid".parse::<StageType>().is_err());
    assert!("".parse::<StageType>().is_err());
    assert_eq!("COMPRESSION".parse::<StageType>().unwrap(), StageType::Compression);
    assert_eq!("Encryption".parse::<StageType>().unwrap(), StageType::Encryption);
}

#[test]
fn test_stage_compatibility_compression() {
    let compression_stage = create_test_stage("comp1", StageType::Compression, "brotli");
    let encryption_stage = create_test_stage("enc1", StageType::Encryption, "aes256gcm");
    let checksum_stage = create_test_stage("check1", StageType::Checksum, "sha256");
    let passthrough_stage = create_test_stage("pass1", StageType::PassThrough, "passthrough");

    assert!(compression_stage.is_compatible_with(&encryption_stage));
    assert!(compression_stage.is_compatible_with(&checksum_stage));
    assert!(compression_stage.is_compatible_with(&passthrough_stage));
    assert!(!compression_stage.is_compatible_with(&compression_stage));
}

#[test]
fn test_stage_compatibility_encryption() {
    let compression_stage = create_test_stage("comp1", StageType::Compression, "brotli");
    let encryption_stage = create_test_stage("enc1", StageType::Encryption, "aes256gcm");
    let checksum_stage = create_test_stage("check1", StageType::Checksum, "sha256");
    let passthrough_stage = create_test_stage("pass1", StageType::PassThrough, "passthrough");

    assert!(encryption_stage.is_compatible_with(&checksum_stage));
    assert!(encryption_stage.is_compatible_with(&passthrough_stage));
    assert!(encryption_stage.is_compatible_with(&compression_stage));
    assert!(!encryption_stage.is_compatible_with(&encryption_stage));
}

#[test]
fn test_stage_compatibility_checksum() {
    let compression_stage = create_test_stage("comp1", StageType::Compression, "brotli");
    let encryption_stage = create_test_stage("enc1", StageType::Encryption, "aes256gcm");
    let checksum_stage = create_test_stage("check1", StageType::Checksum, "sha256");
    let passthrough_stage = create_test_stage("pass1", StageType::PassThrough, "passthrough");

    assert!(checksum_stage.is_compatible_with(&passthrough_stage));
    assert!(checksum_stage.is_compatible_with(&compression_stage));
    assert!(checksum_stage.is_compatible_with(&encryption_stage));
    assert!(checksum_stage.is_compatible_with(&checksum_stage));
}

#[test]
fn test_stage_compatibility_passthrough() {
    let compression_stage = create_test_stage("comp1", StageType::Compression, "brotli");
    let encryption_stage = create_test_stage("enc1", StageType::Encryption, "aes256gcm");
    let checksum_stage = create_test_stage("check1", StageType::Checksum, "sha256");
    let passthrough_stage = create_test_stage("pass1", StageType::PassThrough, "passthrough");

    assert!(passthrough_stage.is_compatible_with(&compression_stage));
    assert!(passthrough_stage.is_compatible_with(&encryption_stage));
    assert!(passthrough_stage.is_compatible_with(&checksum_stage));
    assert!(passthrough_stage.is_compatible_with(&passthrough_stage));

    assert!(compression_stage.is_compatible_with(&passthrough_stage));
    assert!(encryption_stage.is_compatible_with(&passthrough_stage));
    assert!(checksum_stage.is_compatible_with(&passthrough_stage));
}

#[test]
fn test_stage_creation_with_correct_types() {
    let compression_stage = create_test_stage("comp", StageType::Compression, "brotli");
    assert_eq!(compression_stage.stage_type(), &StageType::Compression);

    let encryption_stage = create_test_stage("enc", StageType::Encryption, "aes256gcm");
    assert_eq!(encryption_stage.stage_type(), &StageType::Encryption);

    let checksum_stage = create_test_stage("check", StageType::Checksum, "sha256");
    assert_eq!(checksum_stage.stage_type(), &StageType::Checksum);

    let passthrough_stage = create_test_stage("pass", StageType::PassThrough, "passthrough");
    assert_eq!(passthrough_stage.stage_type(), &StageType::PassThrough);
}

#[test]
fn test_stage_serialization_roundtrip() {
    let original_stage = create_test_stage("test", StageType::PassThrough, "passthrough");

    let stage_type_str = original_stage.stage_type().to_string();
    let parsed_type: StageType = stage_type_str.parse().unwrap();

    assert_eq!(parsed_type, StageType::PassThrough);
    assert_eq!(parsed_type, *original_stage.stage_type());
}
