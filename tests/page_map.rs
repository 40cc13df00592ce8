use std::collections::HashSet;

use rogic_memory::Error;
use rogic_memory::ErrorType;
use rogic_memory::PageItemFactory;
use rogic_memory::PageMap;

struct TestPageItemFactory {}

impl PageItemFactory<u32> for TestPageItemFactory {
    fn create_item(&self, id: usize) -> Box<u32> {
        Box::new(id as u32)
    }
}

#[test]
fn test_page_map_items() -> Result<(), Error> {
    let mut page_map = PageMap::new(TestPageItemFactory {});

    assert_eq!(page_map.get_size(), 0);
    let index = page_map.gain_item()?;

    assert_eq!(*page_map.get(index).unwrap(), index as u32);

    assert_eq!(index, 0);
    assert_eq!(page_map.get_size(), 1);

    assert!(page_map.recycle_item(index).is_ok());

    let index = page_map.gain_item()?;
    assert_eq!(*page_map.get(index).unwrap(), index as u32);
    assert_eq!(index, 1);
    assert_eq!(page_map.get_size(), 1);
    assert!(page_map.recycle_item(index).is_ok());

    assert_eq!(page_map.get_size(), 0);

    Ok(())
}

#[test]
fn test_page_map_iterator() -> Result<(), Error> {
    let mut page_map = PageMap::new(TestPageItemFactory {});

    let index = page_map.gain_item()?;
    let index_2 = page_map.gain_item()?;
    let index_3 = page_map.gain_item()?;

    page_map.recycle_item(index_2)?;

    let mut indices = HashSet::new();
    let mut items = page_map.iterate_items();
    while let Some(i) = items.next() {
        indices.insert(*page_map.get(i).unwrap());
    }

    assert_eq!(indices.len(), 2);
    assert!(indices.get(&(index as u32)).is_some());
    assert!(indices.get(&(index_3 as u32)).is_some());

    Ok(())
}

#[test]
fn page_map_missing_items() -> Result<(), Error> {
    let mut page_map = PageMap::new(TestPageItemFactory {});
    assert!(page_map.get(0).is_none());
    assert_eq!(page_map.recycle_item(3).unwrap_err().get_type(), ErrorType::FatalError);
    let index = page_map.gain_item()?;
    page_map.recycle_item(index)?;
    assert!(page_map.get(index).is_none());
    assert_eq!(page_map.recycle_item(index).unwrap_err().get_type(), ErrorType::FatalError);
    Ok(())
}

#[test]
fn page_map_shrink_reuses_indices() -> Result<(), Error> {
    let mut page_map = PageMap::new(TestPageItemFactory {});
    let a = page_map.gain_item()?;
    let b = page_map.gain_item()?;
    let c = page_map.gain_item()?;
    assert_eq!((a, b, c), (0, 1, 2));
    page_map.recycle_item(b)?;
    assert_eq!(page_map.peek_next_item_index(), 3);
    assert_eq!(page_map.shrink_next_item_index(2, 0), 3);
    assert_eq!(page_map.shrink_next_item_index(3, 0), 0);
    assert_eq!(page_map.gain_item()?, 1);
    assert_eq!(page_map.gain_item()?, 3);
    assert_eq!(page_map.get_size(), 4);
    Ok(())
}
