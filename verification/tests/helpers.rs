use betrayal::helpers::chunk_while::ChunkWhile;
use betrayal::helpers::windowed;

#[test]
fn test_windowed_helper() {
    assert_eq!(
        windowed(&[1, 2, 3], 1),
        vec![vec![1], vec![2], vec![3]]
    );
    assert_eq!(windowed(&[1, 2, 3], 2), vec![vec![1, 2], vec![2, 3]]);
    assert_eq!(windowed(&[1, 2, 3], 3), vec![vec![1, 2, 3]]);
}

#[test]
fn test_empty_iterator() {
    let data: Vec<i32> = vec![];
    let mut iter = ChunkWhile::new(data, |_: &Vec<i32>| true);
    assert_eq!(iter.next(), None);
}

#[test]
fn test_no_split() {
    let data = vec![1, 2, 3];
    let mut iter = ChunkWhile::new(data, |_chunk: &Vec<i32>| true);
    assert_eq!(iter.next(), Some(vec![1, 2, 3]));
    assert_eq!(iter.next(), None);
}

#[test]
fn test_split_every_time() {
    let data = vec![1, 2, 3];
    let mut iter = ChunkWhile::new(data, |chunk: &Vec<i32>| chunk.is_empty());

    assert_eq!(iter.next(), Some(vec![1]));
    assert_eq!(iter.next(), Some(vec![2]));
    assert_eq!(iter.next(), Some(vec![3]));
    assert_eq!(iter.next(), None);
}

#[test]
fn test_chunk_while_size_less_than_5() {
    let data = vec![1u8; 1000];
    let mut iter = ChunkWhile::new(data, |chunk: &Vec<u8>| {
        chunk.iter().copied().sum::<u8>() < 5
    });
    let mut seen = 0;
    while let Some(chunk) = iter.next() {
        assert_eq!(chunk.len(), 5);
        seen += chunk.len();
    }
    assert_eq!(seen, 1000);
}
