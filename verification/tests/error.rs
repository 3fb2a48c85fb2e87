use execnode::error::NodeError;

#[test]
fn node_errors_have_messages() {
    assert_eq!(
        NodeError::SwarmNotInitialized.message(),
        "swarm not initialized"
    );
    assert_eq!(
        NodeError::InvalidExecFunction.message(),
        "invalid exec function name"
    );
}
