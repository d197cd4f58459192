use merkletree::Prover;
use merkletree::Verifier;

fn to_records(data: &[&str]) -> Vec<Vec<u8>> {
    let mut records: Vec<Vec<u8>> = Vec::new();
    for d in data.iter() {
        records.push(d.as_bytes().to_vec());
    }
    records
}

#[test]
fn simple_protocol() {
    let data = to_records(&[
        "integration00",
        "integration01",
        "integration02",
        "integration03",
    ]);

    let num_threads = 1;

    // Create a Prover instance
    let prover = match Prover::new(&data, num_threads) {
        Ok(p) => p,
        Err(e) => panic!("Failed to create Prover instance: {:?}", e),
    };

    // Get the root hash from the Prover
    let root_hash = match prover.get_root_hash() {
        Ok(hash) => hash,
        Err(e) => panic!("Failed to get root hash: {:?}", e),
    };

    let leaf_index = 3;

    // Get the proof for the specified leaf index from the Prover
    let proof = match prover.get_proof(leaf_index) {
        Ok(p) => p,
        Err(e) => panic!("Failed to get proof for leaf index {}: {:?}", leaf_index, e),
    };

    // Create a Verifier instance with the root hash
    let verifier = Verifier::new(root_hash);

    // Check the proof using the Verifier
    assert!(verifier.verify_proof(&proof));
}

#[test]
fn thread_numbers_and_leaf_indices_systematically() {
    // One thousand generated records.
    let data: Vec<Vec<u8>> = (0..1000)
        .map(|i| format!("record{:04}", i).into_bytes())
        .collect();

    let mut reference_root_hash: Option<[u8; 32]> = None;

    // Testing num_threads from 1 to 16
    for num_threads in 1..=16 {
        // Create a Prover instance
        let prover = match Prover::new(&data, num_threads) {
            Ok(p) => p,
            Err(e) => panic!("Failed to create Prover instance: {:?}", e),
        };

        // Get the root hash from the Prover
        let root_hash = match prover.get_root_hash() {
            Ok(hash) => hash,
            Err(e) => panic!("Failed to get root hash: {:?}", e),
        };

        if let Some(ref root) = reference_root_hash {
            assert_eq!(&root_hash, root, "Root hash mismatch at {} threads!", num_threads);
        } else {
            reference_root_hash = Some(root_hash);
        }

        // Create a Verifier instance with the root hash
        let verifier = Verifier::new(root_hash);

        for leaf_index in 0..=999 {
            // Get the proof for the specified leaf index from the Prover
            let proof = match prover.get_proof(leaf_index) {
                Ok(p) => p,
                Err(e) => {
                    panic!("Failed to get proof for leaf index {}: {:?}", leaf_index, e)
                }
            };

            // Check the proof using the Verifier
            assert!(verifier.verify_proof(&proof));
        }
    }
}

#[test]
fn wrong_proof() {
    let data1 = to_records(&[
        "integration00",
        "integration01",
        "integration02",
        "integration03",
    ]);

    let data2 = to_records(&[
        "integration00",
        "integration01",
        "integration02",
        "modified",
    ]);

    let num_threads = 1;

    // Create two Prover instances
    let prover1 = match Prover::new(&data1, num_threads) {
        Ok(p) => p,
        Err(e) => panic!("Failed to create Prover instance: {:?}", e),
    };

    let prover2 = match Prover::new(&data2, num_threads) {
        Ok(p) => p,
        Err(e) => panic!("Failed to create Prover instance: {:?}", e),
    };

    // Get the root hash from prover1
    let root_hash1 = match prover1.get_root_hash() {
        Ok(hash) => hash,
        Err(e) => panic!("Failed to get root hash: {:?}", e),
    };

    // Get a proof from prover2
    let leaf_index = 3;
    let proof2 = match prover2.get_proof(leaf_index) {
        Ok(p) => p,
        Err(e) => panic!("Failed to get proof for leaf index {}: {:?}", leaf_index, e),
    };

    // Create a Verifier instance with root hash from prover1
    let verifier = Verifier::new(root_hash1);

    // Check proof from prover2 using the Verifier.
    // Should not be valid.
    assert!(!verifier.verify_proof(&proof2));
}

#[test]
fn concrete_scenario_five_records() {
    let data = to_records(&["data1", "data2", "data3", "data4", "data5"]);

    let prover_one_thread = Prover::new(&data, 1).ok().unwrap();
    let prover_eight_threads = Prover::new(&data, 8).ok().unwrap();
    let root_one = prover_one_thread.get_root_hash().ok().unwrap();
    let root_eight = prover_eight_threads.get_root_hash().ok().unwrap();
    assert_eq!(root_one, root_eight);

    let proof = prover_one_thread.get_proof(3).ok().unwrap();
    assert_eq!(proof.authentication_path.len(), 3);

    let verifier = Verifier::new(root_one);
    assert!(verifier.verify_proof(&proof));

    let modified = to_records(&["data1", "data2", "data3", "data4", "modified"]);
    let prover_modified = Prover::new(&modified, 1).ok().unwrap();
    let root_modified = prover_modified.get_root_hash().ok().unwrap();
    let verifier_modified = Verifier::new(root_modified);
    assert!(!verifier_modified.verify_proof(&proof));
}
