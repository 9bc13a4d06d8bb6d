use head::{is_header_slice_aligned, HeaderSlice};

#[test]
fn with_header_hands_over_the_header_and_no_items() {
    let (header, len) = HeaderSlice::<u8, u32>::with_header(7, |hs| (hs.header, hs.slice.len()));
    assert_eq!(header, 7);
    assert_eq!(len, 0);
}

#[test]
fn with_header_of_a_string() {
    let s = HeaderSlice::<String, u64>::with_header(String::from("meta"), |hs| {
        assert!(hs.slice.is_empty());
        hs.header.clone()
    });
    assert_eq!(s, "meta");
}

#[test]
fn with_header_mut_lets_the_callback_write() {
    let r = HeaderSlice::<u32, u16>::with_header_mut(3, |hs| {
        assert_eq!(hs.slice.len(), 0);
        hs.header += 4;
        hs.header
    });
    assert_eq!(r, 7);
}

#[test]
fn from_header_succeeds_where_header_alignment_covers_items() {
    let x: u64 = 42;
    let hs = HeaderSlice::<u64, u32>::from_header(&x).unwrap();
    assert_eq!(*hs.header, 42);
    assert!(hs.slice.is_empty());

    let y: u32 = 9;
    assert!(HeaderSlice::<u32, u8>::from_header(&y).is_some());
    assert!(HeaderSlice::<u16, u16>::from_header(&3u16).is_some());
}

#[test]
fn from_header_follows_the_address_of_the_header() {
    let words: [u32; 4] = [1, 2, 3, 4];
    let align = std::mem::align_of::<u64>();
    let mut seen_aligned = false;
    let mut seen_misaligned = false;
    for w in words.iter() {
        let addr = std::ptr::from_ref(w) as usize;
        let aligned = addr % align == 0;
        let hs = HeaderSlice::<u32, u64>::from_header(w);
        assert_eq!(hs.is_some(), aligned);
        if let Some(hs) = hs {
            assert_eq!(*hs.header, *w);
            seen_aligned = true;
        } else {
            seen_misaligned = true;
        }
    }
    if align == 8 {
        assert!(seen_aligned);
        assert!(seen_misaligned);
    }
}

#[test]
fn from_header_mut_writes_through() {
    let mut x: u32 = 5;
    {
        let hs = HeaderSlice::<u32, u8>::from_header_mut(&mut x).unwrap();
        assert!(hs.slice.is_empty());
        *hs.header = 11;
    }
    assert_eq!(x, 11);
}

#[test]
fn from_header_mut_follows_the_address_of_the_header() {
    let mut words: [u32; 2] = [1, 2];
    let align = std::mem::align_of::<u64>();
    for w in words.iter_mut() {
        let aligned = std::ptr::from_ref(&*w) as usize % align == 0;
        let hs = HeaderSlice::<u32, u64>::from_header_mut(w);
        assert_eq!(hs.is_some(), aligned);
    }
}

#[test]
fn from_boxed_header_takes_an_aligned_box() {
    let hs = HeaderSlice::<u64, u8>::from_boxed_header(Box::new(99)).ok().unwrap();
    assert_eq!(hs.header, 99);
    assert!(hs.slice.is_empty());
}

#[test]
fn unchecked_header_constructors() {
    let x: u16 = 4;
    let hs = HeaderSlice::<u16, u64>::from_header_unchecked(&x);
    assert_eq!(*hs.header, 4);
    assert!(hs.slice.is_empty());

    let mut y: u16 = 4;
    {
        let hs = HeaderSlice::<u16, u64>::from_header_unchecked_mut(&mut y);
        *hs.header = 8;
    }
    assert_eq!(y, 8);

    let hs = HeaderSlice::<u16, u64>::from_boxed_header_unchecked(Box::new(6));
    assert_eq!(hs.header, 6);
    assert!(hs.slice.is_empty());
}

#[test]
fn address_alignment_check() {
    assert!(!is_header_slice_aligned::<u32, u64>(4));
    assert!(!is_header_slice_aligned::<u32, u64>(12));
    assert!(is_header_slice_aligned::<u32, u64>(8));
    assert!(is_header_slice_aligned::<u32, u64>(0));
    assert!(is_header_slice_aligned::<u64, u8>(3));
    assert!(!is_header_slice_aligned::<u8, u16>(1));
}

#[test]
fn full_boxed_slice_of_four() {
    let hs = HeaderSlice::<i32, i32>::from_full_boxed_slice(vec![1, 2, 3, 4]).unwrap();
    assert_eq!(hs.header, 1);
    assert_eq!(hs.slice, vec![2, 3, 4]);
    assert_eq!(hs.into_full_boxed_slice(), vec![1, 2, 3, 4]);
}

#[test]
fn full_boxed_slice_of_one() {
    let hs = HeaderSlice::<u8, u8>::from_full_boxed_slice(vec![9]).unwrap();
    assert_eq!(hs.header, 9);
    assert!(hs.slice.is_empty());
    assert_eq!(hs.into_full_boxed_slice(), vec![9]);
}

#[test]
fn empty_full_boxed_slice_gives_nothing() {
    assert!(HeaderSlice::<i32, i32>::from_full_boxed_slice(Vec::new()).is_none());
}

#[test]
fn full_boxed_slice_round_trip() {
    let inputs: Vec<Vec<String>> = vec![
        vec![String::from("a")],
        vec![String::from("x"), String::from("y")],
        vec![String::from("p"), String::from("q"), String::from("p"), String::from("")],
    ];
    for input in inputs {
        let hs = HeaderSlice::<String, String>::from_full_boxed_slice(input.clone()).unwrap();
        assert_eq!(hs.header, input[0]);
        assert_eq!(hs.slice.as_slice(), &input[1..]);
        assert_eq!(hs.into_full_boxed_slice(), input);
    }
}

#[test]
fn full_boxed_slice_unchecked() {
    let hs = HeaderSlice::<u64, u64>::from_full_boxed_slice_unchecked(vec![5, 6]);
    assert_eq!(hs.header, 5);
    assert_eq!(hs.slice, vec![6]);
}

#[test]
fn full_slice_of_four() {
    let data = [1i32, 2, 3, 4];
    let hs = HeaderSlice::<i32, i32>::from_full_slice(&data).unwrap();
    assert_eq!(*hs.header, 1);
    assert_eq!(hs.slice, vec![&2, &3, &4]);
    assert!(std::ptr::eq(hs.header, &data[0]));
    assert!(std::ptr::eq(hs.slice[2], &data[3]));
    let back: Vec<i32> = hs.into_full_boxed_slice().into_iter().copied().collect();
    assert_eq!(back, vec![1, 2, 3, 4]);
}

#[test]
fn empty_full_slice_gives_nothing() {
    let data: [u8; 0] = [];
    assert!(HeaderSlice::<u8, u8>::from_full_slice(&data).is_none());
}

#[test]
fn full_slice_unchecked_of_one() {
    let data = [7u16];
    let hs = HeaderSlice::<u16, u16>::from_full_slice_unchecked(&data);
    assert_eq!(*hs.header, 7);
    assert!(hs.slice.is_empty());
}

#[test]
fn as_full_slice_lists_header_then_items() {
    let hs = HeaderSlice { header: 1i32, slice: vec![2, 3, 4] };
    let full: Vec<i32> = hs.as_full_slice().into_iter().copied().collect();
    assert_eq!(full, vec![1, 2, 3, 4]);
    assert!(std::ptr::eq(hs.as_full_slice()[0], &hs.header));

    let lone = HeaderSlice::<i32, i32> { header: 5, slice: Vec::new() };
    assert_eq!(lone.as_full_slice(), vec![&5]);
}

#[test]
fn alignment_is_the_greater_one() {
    assert_eq!(HeaderSlice::<u8, u32>::align(), std::mem::align_of::<u32>());
    assert_eq!(HeaderSlice::<u64, u8>::align(), std::mem::align_of::<u64>());
    assert_eq!(HeaderSlice::<u8, u8>::align(), 1);
    assert_eq!(HeaderSlice::<(), u16>::align(), 2);
}

#[test]
fn items_offset_values() {
    assert_eq!(HeaderSlice::<u8, u32>::items_offset(), 4);
    assert_eq!(HeaderSlice::<u8, u8>::items_offset(), 1);
    assert_eq!(HeaderSlice::<u16, u8>::items_offset(), 2);
    assert_eq!(HeaderSlice::<[u8; 3], u16>::items_offset(), 4);
    assert_eq!(HeaderSlice::<[u8; 5], u32>::items_offset(), 8);
    assert_eq!(HeaderSlice::<(), u64>::items_offset(), 0);
    assert_eq!(HeaderSlice::<u32, ()>::items_offset(), 4);
    assert_eq!(
        HeaderSlice::<u32, u64>::items_offset(),
        std::mem::align_of::<u64>().max(4)
    );
}

#[test]
fn region_of_byte_header_and_three_words() {
    let hs = HeaderSlice { header: 7u8, slice: vec![10u32, 20, 30] };
    assert_eq!(hs.header, 7);
    assert_eq!(hs.slice, vec![10, 20, 30]);
    let offset = HeaderSlice::<u8, u32>::items_offset();
    assert_eq!(hs.region_size(), Some(offset + 12));
    assert_eq!(hs.region_size(), Some(16));
}

#[test]
fn region_size_pads_the_end() {
    let hs = HeaderSlice { header: 1u32, slice: vec![1u8] };
    assert_eq!(hs.region_size(), Some(8));
    let empty = HeaderSlice::<u64, u8> { header: 1, slice: Vec::new() };
    assert_eq!(empty.region_size(), Some(8));
    let units = HeaderSlice { header: 0u16, slice: vec![(); 1000] };
    assert_eq!(units.region_size(), Some(2));
}

#[test]
fn full_slice_mut_writes_through() {
    let mut data = [1i32, 2, 3, 4];
    {
        let hs = HeaderSlice::<i32, i32>::from_full_slice_mut(&mut data).unwrap();
        assert_eq!(*hs.header, 1);
        assert_eq!(hs.slice.len(), 3);
        *hs.header = 10;
        for item in hs.slice {
            *item *= 2;
        }
    }
    assert_eq!(data, [10, 4, 6, 8]);
}

#[test]
fn empty_full_slice_mut_gives_nothing() {
    let mut data: [u8; 0] = [];
    assert!(HeaderSlice::<u8, u8>::from_full_slice_mut(&mut data).is_none());
}

#[test]
fn full_slice_unchecked_mut_of_two() {
    let mut data = [5u64, 6];
    {
        let hs = HeaderSlice::<u64, u64>::from_full_slice_unchecked_mut(&mut data);
        assert_eq!(hs.slice.len(), 1);
        *hs.slice.into_iter().next().unwrap() = 60;
    }
    assert_eq!(data, [5, 60]);
}

#[test]
fn as_full_slice_mut_writes_through() {
    let mut hs = HeaderSlice { header: 1i32, slice: vec![2, 3] };
    {
        let full = hs.as_full_slice_mut();
        assert_eq!(full.len(), 3);
        for r in full {
            *r += 100;
        }
    }
    assert_eq!(hs.header, 101);
    assert_eq!(hs.slice, vec![102, 103]);

    let mut lone = HeaderSlice::<u8, u8> { header: 1, slice: Vec::new() };
    {
        let full = lone.as_full_slice_mut();
        assert_eq!(full.len(), 1);
        for r in full {
            *r = 2;
        }
    }
    assert_eq!(lone.header, 2);
}

#[test]
fn header_slices_compare_by_header_then_items() {
    let a = HeaderSlice { header: 1u8, slice: vec![2u8, 3] };
    let b = a.clone();
    assert_eq!(a, b);
    let c = HeaderSlice { header: 1u8, slice: vec![2u8, 4] };
    assert!(a < c);
    let d = HeaderSlice { header: 1u8, slice: vec![2u8] };
    assert_ne!(a, d);
}

#[test]
fn from_header_at_decides_by_the_address() {
    let x: u32 = 3;
    assert!(HeaderSlice::<u32, u64>::from_header_at(&x, 4).is_none());
    assert!(HeaderSlice::<u32, u64>::from_header_at(&x, 12).is_none());
    let hs = HeaderSlice::<u32, u64>::from_header_at(&x, 8).unwrap();
    assert_eq!(*hs.header, 3);
    assert!(hs.slice.is_empty());
    assert!(HeaderSlice::<u32, u16>::from_header_at(&x, 6).is_some());
    assert!(HeaderSlice::<u32, u16>::from_header_at(&x, 7).is_none());
}

#[test]
fn from_header_mut_at_decides_by_the_address() {
    let mut x: u32 = 3;
    assert!(HeaderSlice::<u32, u64>::from_header_mut_at(&mut x, 4).is_none());
    {
        let hs = HeaderSlice::<u32, u64>::from_header_mut_at(&mut x, 16).unwrap();
        assert!(hs.slice.is_empty());
        *hs.header = 30;
    }
    assert_eq!(x, 30);
}

#[test]
fn from_boxed_header_at_hands_back_a_misaligned_box() {
    let b = Box::new(5u32);
    let back = HeaderSlice::<u32, u64>::from_boxed_header_at(b, 4).err().unwrap();
    assert_eq!(*back, 5);
    let hs = HeaderSlice::<u32, u64>::from_boxed_header_at(back, 8).ok().unwrap();
    assert_eq!(hs.header, 5);
    assert!(hs.slice.is_empty());
}
