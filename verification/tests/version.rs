//! The version of the crate.

use pulci_core::version;

#[test]
fn version_is_not_empty() {
    assert!(!version().is_empty());
    assert_eq!(version(), pulci_core::VERSION);
}
