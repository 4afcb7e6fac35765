use backup_pipeline::aead;
use backup_pipeline::aead::KeyMaterial;
use backup_pipeline::cli::{backup_with, restore_with, validate_path, CipherStage, Cli, Command};
use backup_pipeline::compressor;
use backup_pipeline::crypt;
use backup_pipeline::crypt::Cryptography;
use backup_pipeline::errors::PipelineError;
use backup_pipeline::paths::{path_append, remove_suffix};

fn fixed_cryptography() -> Cryptography {
    let key: Vec<u8> = base64::decode("kjtbxCPw3XPFThb3mKmzfg==").unwrap();
    let iv: Vec<u8> = base64::decode("dB0Ej+7zWZWTS5JUCldWMg==").unwrap();
    Cryptography { key, iv }
}

fn fixed_key_material() -> KeyMaterial {
    let mut key = Vec::new();
    for i in 0..32u8 {
        key.push(i.wrapping_mul(7).wrapping_add(3));
    }
    let mut nonce_prefix = Vec::new();
    for i in 0..19u8 {
        nonce_prefix.push(i.wrapping_mul(11).wrapping_add(5));
    }
    KeyMaterial { key, nonce_prefix }
}

fn pattern(len: usize) -> Vec<u8> {
    let mut v = Vec::with_capacity(len);
    for i in 0..len {
        v.push((i % 251) as u8);
    }
    v
}

#[test]
fn test_encrypt_decrypt() {
    let data = vec![20, 30, 40];

    let key: Vec<_> = base64::decode("kjtbxCPw3XPFThb3mKmzfg==").unwrap();
    let iv: Vec<_> = base64::decode("dB0Ej+7zWZWTS5JUCldWMg==").unwrap();

    let c = Cryptography { key, iv };
    let buf = crypt::encrypt(&data, &c);
    assert!(!buf.is_empty());

    let res = crypt::decrypt(&buf, &c);
    assert!(res.is_ok());

    assert_eq!(data, res.unwrap());
}

#[test]
fn test_from_args_invalid_command() {
    let r = Cli::from_args(&vec!["}".to_string()]);
    assert_eq!(r, Err(PipelineError::InvalidCommand));
}

#[test]
fn test_from_args_invalid_path() {
    let r = Cli::from_args(&vec!["backup".to_string(), "}".to_string()]);
    assert_eq!(r, Ok(Command::Backup("}".to_string())));
    let v = validate_path("}", false, false);
    assert_eq!(v, Err(PipelineError::PathMissing("}".to_string())));
}

#[test]
fn test_from_args_nonexisting_path() {
    let r = Cli::from_args(&vec!["backup".to_string(), "/lala/tralala".to_string()]);
    assert_eq!(r, Ok(Command::Backup("/lala/tralala".to_string())));
    let v = validate_path("/lala/tralala", false, false);
    assert_eq!(v, Err(PipelineError::PathMissing("/lala/tralala".to_string())));
}

#[test]
fn test_from_args_missing_command() {
    let r = Cli::from_args(&Vec::new());
    assert_eq!(r, Err(PipelineError::MissingCommand));
}

#[test]
fn test_from_args_missing_path() {
    let r = Cli::from_args(&vec!["backup".to_string()]);
    assert_eq!(r, Err(PipelineError::MissingPath));
    let r = Cli::from_args(&vec!["restore".to_string()]);
    assert_eq!(r, Err(PipelineError::MissingPath));
}

#[test]
fn test_from_args_restore() {
    let r = Cli::from_args(&vec!["restore".to_string(), "a.bkp".to_string()]);
    assert_eq!(r, Ok(Command::Restore("a.bkp".to_string())));
}

#[test]
fn test_from_args() {
    let r = Cli::from_args(&vec!["backup".to_string(), "src".to_string()]);
    assert_eq!(r, Ok(Command::Backup("src".to_string())));
    // `src` names a directory: the pipeline handles regular files only
    let v = validate_path("src", true, false);
    assert_eq!(v, Err(PipelineError::FilesOnly));
}

#[test]
fn test_validate_path_files_only() {
    assert_eq!(validate_path("src", true, false), Err(PipelineError::FilesOnly));
    assert_eq!(validate_path("a.txt", true, true), Ok(()));
}

#[test]
fn test_compress_round_trip_empty() {
    let data: Vec<u8> = Vec::new();
    let compressed = compressor::compress(&data);
    assert!(!compressed.is_empty());
    let out = compressor::decompress(&compressed).unwrap();
    assert_eq!(data, out);
}

#[test]
fn test_compress_round_trip_small() {
    let data = vec![20, 30, 40];
    let compressed = compressor::compress(&data);
    assert_ne!(compressed, data);
    let out = compressor::decompress(&compressed).unwrap();
    assert_eq!(data, out);
}

#[test]
fn test_compress_round_trip_chunk_boundaries() {
    for len in [4095usize, 4096, 4097] {
        let data = pattern(len);
        let out = compressor::decompress(&compressor::compress(&data)).unwrap();
        assert_eq!(data, out);
    }
}

#[test]
fn test_decompress_rejects_garbage() {
    let garbage = vec![0xffu8; 64];
    let r = compressor::decompress(&garbage);
    assert_eq!(r, Err(PipelineError::Compression));
}

#[test]
fn test_cbc_round_trip_chunk_boundaries() {
    let c = fixed_cryptography();
    for len in [0usize, 127, 128, 129] {
        let data = pattern(len);
        let enc = crypt::encrypt(&data, &c);
        if !data.is_empty() {
            assert_ne!(enc, data);
        }
        let out = crypt::decrypt(&enc, &c).unwrap();
        assert_eq!(data, out);
    }
}

#[test]
fn test_cbc_ciphertext_is_block_padded() {
    let c = fixed_cryptography();
    let enc = crypt::encrypt(&vec![20, 30, 40], &c);
    assert_eq!(enc.len(), 16);
}

#[test]
fn test_cbc_decrypt_rejects_bad_length() {
    let c = fixed_cryptography();
    let r = crypt::decrypt(&vec![1, 2, 3], &c);
    assert_eq!(r, Err(PipelineError::Decryption));
}

#[test]
fn test_aead_round_trip_fixed_key() {
    let km = fixed_key_material();
    let data = vec![20, 30, 40];
    let enc = aead::encrypt(&data, &km);
    assert_eq!(enc.len(), data.len() + 16);
    let out = aead::decrypt(&enc, &km).unwrap();
    assert_eq!(data, out);
}

#[test]
fn test_aead_round_trip_generated_key() {
    let km = aead::generate_key_material();
    assert_eq!(km.key.len(), 32);
    assert_eq!(km.nonce_prefix.len(), 19);
    let data = pattern(1234);
    let out = aead::decrypt(&aead::encrypt(&data, &km), &km).unwrap();
    assert_eq!(data, out);
}

#[test]
fn test_aead_round_trip_empty() {
    let km = fixed_key_material();
    let data: Vec<u8> = Vec::new();
    let enc = aead::encrypt(&data, &km);
    assert_eq!(enc.len(), 16);
    let out = aead::decrypt(&enc, &km).unwrap();
    assert_eq!(data, out);
}

#[test]
fn test_aead_round_trip_chunk_boundaries() {
    let km = fixed_key_material();
    for len in [499usize, 500, 501, 999, 1000, 1001] {
        let data = pattern(len);
        let out = aead::decrypt(&aead::encrypt(&data, &km), &km).unwrap();
        assert_eq!(data, out);
    }
}

#[test]
fn test_aead_tamper_detection() {
    let km = fixed_key_material();
    let data = vec![20, 30, 40];
    let enc = aead::encrypt(&data, &km);
    for byte in 0..enc.len() {
        for bit in 0..8 {
            let mut tampered = enc.clone();
            tampered[byte] ^= 1u8 << bit;
            let r = aead::decrypt(&tampered, &km);
            assert_eq!(r, Err(PipelineError::Decryption));
        }
    }
}

#[test]
fn test_aead_rejects_truncation() {
    let km = fixed_key_material();
    let data = pattern(700);
    let enc = aead::encrypt(&data, &km);
    // drop the final (short) sealed chunk, keeping the full one
    let truncated: Vec<u8> = enc[..516].to_vec();
    assert_eq!(aead::decrypt(&truncated, &km), Err(PipelineError::Decryption));
    // too short to hold even one tag
    let stub: Vec<u8> = enc[..10].to_vec();
    assert_eq!(aead::decrypt(&stub, &km), Err(PipelineError::Decryption));
}

#[test]
fn test_aead_wrong_key_fails() {
    let km = fixed_key_material();
    let other = aead::generate_key_material();
    let enc = aead::encrypt(&vec![1, 2, 3], &km);
    assert_eq!(aead::decrypt(&enc, &other), Err(PipelineError::Decryption));
}

#[test]
fn test_backup_restore_end_to_end() {
    let c = fixed_cryptography();
    let cli = Cli { key: c.key, iv: c.iv };
    let data = vec![20, 30, 40];
    let backed_up = cli.backup(&data).unwrap();
    assert_ne!(backed_up, data);
    let restored = cli.restore(&backed_up).unwrap();
    assert_eq!(data, restored);
}

#[test]
fn test_restore_rejects_garbage() {
    let c = fixed_cryptography();
    let cli = Cli { key: c.key, iv: c.iv };
    let r = cli.restore(&vec![9, 9, 9]);
    assert_eq!(r, Err(PipelineError::Decryption));
}

#[test]
fn test_backup_with_cbc_stage() {
    let stage = CipherStage::Cbc(fixed_cryptography());
    let data = pattern(4097);
    let backed_up = backup_with(&stage, &data).unwrap();
    assert_ne!(backed_up, data);
    let restored = restore_with(&stage, &backed_up).unwrap();
    assert_eq!(data, restored);
}

#[test]
fn test_backup_with_stream_stage() {
    let stage = CipherStage::Stream(fixed_key_material());
    let data = pattern(4097);
    let backed_up = backup_with(&stage, &data).unwrap();
    assert_ne!(backed_up, data);
    let restored = restore_with(&stage, &backed_up).unwrap();
    assert_eq!(data, restored);
}

#[test]
fn test_restore_with_stream_stage_rejects_tampering() {
    let stage = CipherStage::Stream(fixed_key_material());
    let backed_up = backup_with(&stage, &vec![20, 30, 40]).unwrap();
    let mut tampered = backed_up.clone();
    tampered[0] ^= 1;
    assert_eq!(
        restore_with(&stage, &tampered),
        Err(PipelineError::Decryption)
    );
}

#[test]
fn test_path_append() {
    assert_eq!(path_append("dir/file", ".bkp"), "dir/file.bkp".to_string());
    assert_eq!(path_append("a", ".ubkp"), "a.ubkp".to_string());
}

#[test]
fn test_remove_suffix() {
    assert_eq!(remove_suffix("dir/file.bkp", ".bkp"), "dir/file".to_string());
    assert_eq!(remove_suffix("dir/file", ".bkp"), "dir/file".to_string());
    assert_eq!(remove_suffix("a", ".a-long-suffix"), "a".to_string());
    let appended = path_append("dir/file", ".bkp");
    assert_eq!(remove_suffix(&appended, ".bkp"), "dir/file".to_string());
}
