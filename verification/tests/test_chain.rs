use shell_quote::Chain;

#[test]
fn test_chain_accumulates() {
    let chain = Chain::default();
    let chain = chain.extend(b"hello");
    let chain = chain.push(b' ');
    let chain = chain.extend(b"world");
    assert_eq!(chain.to_vec(), b"hello world");
}

#[test]
fn test_chain_write_to_appends() {
    let chain = Chain::default().extend(b"def");
    let mut out = Vec::from(*b"abc");
    chain.write_to(&mut out);
    assert_eq!(out, b"abcdef");
}

#[test]
fn test_chain_empty() {
    let chain = Chain::default();
    assert_eq!(chain.to_vec(), b"");
}
