use pallet_poe::Content;
use pallet_poe::Post;

#[test]
fn default_holds_no_content() {
    let content = Content::default();
    assert!(content.is_none());
    assert!(!content.is_some());
    assert!(!content.is_ipfs());
}

#[test]
fn classification_queries() {
    assert!(Content::Empty.is_none());
    assert!(Content::Raw(vec![1, 2]).is_some());
    assert!(!Content::Raw(vec![1, 2]).is_ipfs());
    assert!(Content::IPFS(vec![3]).is_ipfs());
    assert!(Content::IPFS(vec![3]).is_some());
    assert!(Content::Hyper(vec![4]).is_some());
    assert!(!Content::Hyper(vec![4]).is_ipfs());
}

#[test]
fn payload_bytes_are_exact() {
    assert_eq!(Vec::from(Content::Empty), Vec::<u8>::new());
    assert_eq!(Vec::from(Content::Raw(vec![1, 2, 3])), vec![1, 2, 3]);
    assert_eq!(Vec::from(Content::IPFS(vec![9])), vec![9]);
    assert_eq!(Vec::from(Content::Hyper(vec![7, 8])), vec![7, 8]);
    assert_eq!(Content::Raw(vec![5]).into_bytes(), vec![5]);
}

#[test]
fn equality_is_structural() {
    assert_eq!(Content::Raw(vec![1]), Content::Raw(vec![1]));
    assert_ne!(Content::Raw(vec![1]), Content::Raw(vec![2]));
    assert_ne!(Content::Raw(vec![1]), Content::IPFS(vec![1]));
    assert_eq!(Content::Empty, Content::Empty);
    let left = Post { id: 1, content: Content::Raw(vec![1]) };
    let right = Post { id: 1, content: Content::Raw(vec![1]) };
    assert_eq!(left, right);
    let other = Post { id: 2, content: Content::Raw(vec![1]) };
    assert_ne!(left, other);
}
