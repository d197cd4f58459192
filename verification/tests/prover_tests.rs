use merkletree::hash_data_sequences;
use merkletree::MerkleError;
use merkletree::Prover;
use merkletree::MAX_DATA_SIZE;

fn to_records(data: &[&str]) -> Vec<Vec<u8>> {
    let mut records: Vec<Vec<u8>> = Vec::new();
    for d in data.iter() {
        records.push(d.as_bytes().to_vec());
    }
    records
}

#[test]
fn test_construct_and_get_root_hash() {
    let data = to_records(&["data1", "data2", "data3", "data4", "data5"]);
    let num_threads = 1;
    let root_hash;

    // Construct the initial prover and get its root hash
    match Prover::new(&data, num_threads) {
        Ok(prover) => match prover.get_root_hash() {
            Ok(hash) => {
                assert!(!hash.is_empty(), "Root hash should not be empty");
                root_hash = hash;
            }
            Err(e) => {
                panic!("Failed to get root hash: {:?}", e);
            }
        },
        Err(e) => {
            panic!("Failed to create Prover instance: {:?}", e);
        }
    }

    // Construct a second prover and compare its root hash to the first
    match Prover::new(&data, num_threads) {
        Ok(prover2) => match prover2.get_root_hash() {
            Ok(hash2) => {
                assert_eq!(root_hash, hash2, "Root hashes should match for the same data");
            }
            Err(e) => {
                panic!("Failed to get root hash from prover2: {:?}", e);
            }
        },
        Err(e) => {
            panic!("Failed to create Prover2 instance: {:?}", e);
        }
    }

    // Construct a prover with modified data and ensure its root hash is different
    let mut modified_data = data.clone();
    modified_data[0] = b"modified_data".to_vec();

    match Prover::new(&modified_data, num_threads) {
        Ok(prover_modified) => match prover_modified.get_root_hash() {
            Ok(modified_hash) => {
                assert_ne!(
                    root_hash, modified_hash,
                    "Root hash should change when data is modified"
                );
            }
            Err(e) => {
                panic!("Failed to get root hash from modified prover: {:?}", e);
            }
        },
        Err(e) => {
            panic!("Failed to create Prover with modified data instance: {:?}", e);
        }
    }
}

#[test]
fn test_get_proof_complete_tree() {
    let data = to_records(&["data1", "data2", "data3", "data4"]);
    let num_threads = 1;
    let prover = match Prover::new(&data, num_threads) {
        Ok(p) => p,
        Err(_) => panic!("Failed to create prover"),
    };

    for leaf_index in 0..data.len() {
        let proof = match prover.get_proof(leaf_index) {
            Ok(p) => p,
            Err(_) => panic!("Failed at leaf_index: {}", leaf_index),
        };

        assert_eq!(proof.leaf_index, leaf_index);

        assert_eq!(
            proof.leaf_hash,
            hash_data_sequences(&[data[leaf_index].as_slice()])
        );

        // The height of the tree should be ceil(log2(4)) = 2
        assert_eq!(
            proof.authentication_path.len(),
            2,
            "Failed at leaf_index: {}",
            leaf_index
        );
    }
}

#[test]
fn test_get_proof_non_complete_tree() {
    let data = to_records(&["data1", "data2", "data3", "data4", "data5"]);
    let num_threads = 1;
    let prover = match Prover::new(&data, num_threads) {
        Ok(p) => p,
        Err(_) => panic!("Failed to create prover"),
    };

    for leaf_index in 0..data.len() {
        let proof = match prover.get_proof(leaf_index) {
            Ok(p) => p,
            Err(_) => panic!("Failed at leaf_index: {}", leaf_index),
        };

        assert_eq!(proof.leaf_index, leaf_index);

        assert_eq!(
            proof.leaf_hash,
            hash_data_sequences(&[data[leaf_index].as_slice()])
        );

        // The height of the tree should be ceil(log2(5)) = 3
        assert_eq!(
            proof.authentication_path.len(),
            3,
            "Failed at leaf_index: {}",
            leaf_index
        );
    }
}

#[test]
fn test_get_proof_out_of_bounds() {
    let data = to_records(&["data1", "data2", "data3", "data4"]);
    let num_threads = 1;
    let prover = match Prover::new(&data, num_threads) {
        Ok(p) => p,
        Err(_) => panic!("Failed to create prover"),
    };

    // Attempt to get a proof for an out-of-bounds leaf_index
    let result = prover.get_proof(data.len());

    // Validate the result is an error
    assert!(result.is_err(), "Expected an error for out-of-bounds leaf_index");
    assert!(matches!(result, Err(MerkleError::LeafIndexOutOfBounds)));
}

#[test]
fn test_larger_than_max_data_size() {
    let large_data: Vec<Vec<u8>> = (0..MAX_DATA_SIZE + 1)
        .map(|i| i.to_string().into_bytes())
        .collect();

    let result = Prover::new(&large_data, 1);
    assert!(result.is_err(), "Data size exceeds the maximum allowed size");
    assert!(matches!(result, Err(MerkleError::InputTooLarge)));
}

#[test]
fn test_max_data_size() {
    let large_data: Vec<Vec<u8>> = (0..MAX_DATA_SIZE - 1)
        .map(|i| i.to_string().into_bytes())
        .collect();

    let result = Prover::new(&large_data, 8);
    assert!(result.is_ok(), "Data size should be within the allowable limit");
}

#[test]
fn record_count_at_the_ceiling_succeeds() {
    let large_data: Vec<Vec<u8>> = (0..MAX_DATA_SIZE)
        .map(|i| i.to_string().into_bytes())
        .collect();

    let result = Prover::new(&large_data, 8);
    assert!(result.is_ok(), "A record count at the ceiling should build");
}

#[test]
fn empty_input_is_rejected() {
    let records: Vec<Vec<u8>> = Vec::new();
    let result = Prover::new(&records, 1);
    assert!(matches!(result, Err(MerkleError::EmptyInput)));
}

#[test]
fn zero_parallelism_is_rejected() {
    let records = to_records(&["data1"]);
    let result = Prover::new(&records, 0);
    assert!(matches!(result, Err(MerkleError::InvalidParallelism)));
}

#[test]
fn single_record_tree_has_empty_path() {
    let records = to_records(&["only"]);
    let prover = Prover::new(&records, 1).ok().unwrap();
    let root = prover.get_root_hash().ok().unwrap();
    let proof = prover.get_proof(0).ok().unwrap();
    assert_eq!(proof.authentication_path.len(), 0);
    assert_eq!(proof.leaf_hash, root);
    assert_eq!(proof.leaf_hash, hash_data_sequences(&[b"only".as_slice()]));
}

#[test]
fn path_length_is_ceil_log2_of_record_count() {
    for n in 1..=33usize {
        let data: Vec<Vec<u8>> = (0..n).map(|i| format!("record{}", i).into_bytes()).collect();
        let prover = Prover::new(&data, 2).ok().unwrap();
        let expected_height = (n as f64).log2().ceil() as usize;
        for leaf_index in 0..n {
            let proof = prover.get_proof(leaf_index).ok().unwrap();
            assert_eq!(
                proof.authentication_path.len(),
                expected_height,
                "wrong path length for n = {}, leaf_index = {}",
                n,
                leaf_index
            );
        }
    }
}
