use tokio_uring::buf::fixed::registry::{FixedBuf, RegistryInfo};
use tokio_uring::buf::{Buffer, RawParts, Region};

fn region(base: usize, init_len: usize, capacity: usize) -> Region {
    Region { base, init_len, capacity }
}

fn regions_of(buf: &Buffer) -> Vec<Region> {
    let mut out = Vec::new();
    let mut i = 0;
    while let Some(r) = buf.region(i) {
        out.push(r);
        i += 1;
    }
    out
}

#[test]
fn new_takes_well_formed_regions() {
    let buf = Buffer::new(vec![region(0x1000, 3, 8), region(0x2000, 0, 0)]).unwrap();
    assert_eq!(buf.len(), 2);
    assert_eq!(buf.region(0), Some(region(0x1000, 3, 8)));
    assert_eq!(buf.region(1), Some(region(0x2000, 0, 0)));
    assert_eq!(buf.region(2), None);
    assert_eq!(buf.user_data(), None);
}

#[test]
fn new_refuses_no_regions() {
    assert!(Buffer::new(Vec::new()).is_none());
}

#[test]
fn new_refuses_more_written_than_held() {
    assert!(Buffer::new(vec![region(0x1000, 9, 8)]).is_none());
    assert!(Buffer::new(vec![region(0x1000, 8, 8), region(0x2000, 1, 0)]).is_none());
    assert!(Buffer::new(vec![region(0x1000, 8, 8)]).is_some());
}

#[test]
fn decompose_gives_the_parts_region_by_region() {
    let buf = Buffer::new(vec![region(0x1000, 3, 8), region(0x2000, 5, 9)]).unwrap();
    let parts = buf.decompose();
    assert_eq!(parts.ptr, vec![0x1000, 0x2000]);
    assert_eq!(parts.len, vec![3, 5]);
    assert_eq!(parts.cap, vec![8, 9]);
    assert_eq!(parts.user_data, None);
}

#[test]
fn reconstruct_after_decompose_gives_the_buffer_back() {
    let regions = vec![region(0x1000, 3, 8), region(0x2000, 5, 9), region(0x3000, 0, 1)];
    let buf = Buffer::new(regions.clone()).unwrap();
    let back = Buffer::reconstruct(buf.decompose());
    assert_eq!(regions_of(&back), regions);
    assert_eq!(back.user_data(), None);
}

#[test]
fn reconstruct_takes_the_lengths_the_kernel_left() {
    let buf = Buffer::new(vec![region(0x1000, 0, 8)]).unwrap();
    let mut parts = buf.decompose();
    parts.len[0] = 6;
    assert!(parts.is_valid());
    let back = Buffer::reconstruct(parts);
    assert_eq!(back.region(0), Some(region(0x1000, 6, 8)));
}

#[test]
fn parts_are_valid_only_when_they_describe_regions() {
    let info = Some(RegistryInfo { registry: 0, index: 0 });
    let ok = RawParts { ptr: vec![1], len: vec![2], cap: vec![2], user_data: info };
    assert!(ok.is_valid());
    let empty = RawParts { ptr: vec![], len: vec![], cap: vec![], user_data: None };
    assert!(!empty.is_valid());
    let ragged = RawParts { ptr: vec![1, 2], len: vec![0], cap: vec![4, 4], user_data: None };
    assert!(!ragged.is_valid());
    let ragged = RawParts { ptr: vec![1], len: vec![0], cap: vec![4, 4], user_data: None };
    assert!(!ragged.is_valid());
    let over = RawParts { ptr: vec![1, 2], len: vec![0, 5], cap: vec![4, 4], user_data: None };
    assert!(!over.is_valid());
}

#[test]
fn fill_spreads_bytes_over_the_regions_in_order() {
    let make = || Buffer::new(vec![region(0x1000, 0, 5), region(0x2000, 0, 9)]).unwrap();
    assert_eq!(regions_of(&make().fill(14)), vec![region(0x1000, 5, 5), region(0x2000, 9, 9)]);
    assert_eq!(regions_of(&make().fill(7)), vec![region(0x1000, 5, 5), region(0x2000, 2, 9)]);
    assert_eq!(regions_of(&make().fill(5)), vec![region(0x1000, 5, 5), region(0x2000, 0, 9)]);
    assert_eq!(regions_of(&make().fill(3)), vec![region(0x1000, 3, 5), region(0x2000, 0, 9)]);
    assert_eq!(regions_of(&make().fill(0)), vec![region(0x1000, 0, 5), region(0x2000, 0, 9)]);
}

#[test]
fn fill_stops_at_the_capacity() {
    let buf = Buffer::new(vec![region(0x1000, 0, 5), region(0x2000, 0, 9)]).unwrap();
    assert_eq!(
        regions_of(&buf.fill(usize::MAX)),
        vec![region(0x1000, 5, 5), region(0x2000, 9, 9)]
    );
}

#[test]
fn fill_never_unwrites() {
    let buf = Buffer::new(vec![region(0x1000, 4, 5), region(0x2000, 6, 9)]).unwrap();
    assert_eq!(regions_of(&buf.fill(2)), vec![region(0x1000, 4, 5), region(0x2000, 6, 9)]);
    let buf = Buffer::new(vec![region(0x1000, 4, 5), region(0x2000, 6, 9)]).unwrap();
    assert_eq!(regions_of(&buf.fill(12)), vec![region(0x1000, 5, 5), region(0x2000, 7, 9)]);
}

#[test]
fn raw_parts_fill_matches_the_buffer() {
    let mut parts =
        RawParts { ptr: vec![1, 2, 3], len: vec![0, 1, 0], cap: vec![2, 2, 2], user_data: None };
    parts.fill(3);
    assert_eq!(parts.ptr, vec![1, 2, 3]);
    assert_eq!(parts.len, vec![2, 1, 0]);
    assert_eq!(parts.cap, vec![2, 2, 2]);
    parts.fill(5);
    assert_eq!(parts.len, vec![2, 2, 1]);
}

#[test]
fn fixed_buf_round_trip() {
    let info = RegistryInfo { registry: 7, index: 3 };
    let buf = FixedBuf::from_raw_parts(vec![0x4000], vec![2], vec![16], info);
    assert_eq!(buf.bytes_init(), 2);
    assert_eq!(buf.bytes_total(), 16);
    assert_eq!(buf.registry_info(), info);
    let (ptr, len, cap, user_data) = buf.into_raw_parts();
    assert_eq!(ptr, vec![0x4000]);
    assert_eq!(len, vec![2]);
    assert_eq!(cap, vec![16]);
    assert_eq!(user_data, info);
    let back = FixedBuf::from_raw_parts(ptr, len, cap, user_data);
    assert_eq!(back.bytes_init(), 2);
    assert_eq!(back.bytes_total(), 16);
    assert_eq!(back.registry_info(), info);
}

#[test]
fn from_raw_parts_reads_the_first_entries() {
    let info = RegistryInfo { registry: 1, index: 0 };
    let buf = FixedBuf::from_raw_parts(vec![0x10, 0x20], vec![1, 9], vec![4, 9], info);
    assert_eq!(buf.bytes_init(), 1);
    assert_eq!(buf.bytes_total(), 4);
}

#[test]
fn a_fixed_buffer_as_a_buffer_and_back() {
    let info = RegistryInfo { registry: 7, index: 3 };
    let fixed = FixedBuf::from_raw_parts(vec![0x4000], vec![2], vec![16], info);
    let buf = Buffer::from_fixed(fixed);
    assert_eq!(buf.len(), 1);
    assert_eq!(buf.region(0), Some(region(0x4000, 2, 16)));
    assert_eq!(buf.user_data(), Some(info));
    let fixed = buf.into_fixed().unwrap();
    assert_eq!(fixed.bytes_init(), 2);
    assert_eq!(fixed.bytes_total(), 16);
    assert_eq!(fixed.registry_info(), info);
}

#[test]
fn an_owned_buffer_is_no_fixed_buffer() {
    let buf = Buffer::new(vec![region(0x1000, 3, 8)]).unwrap();
    let back = buf.into_fixed().unwrap_err();
    assert_eq!(back.region(0), Some(region(0x1000, 3, 8)));
    assert_eq!(back.user_data(), None);
}

#[test]
fn a_buffer_of_several_regions_is_no_fixed_buffer() {
    let info = Some(RegistryInfo { registry: 7, index: 3 });
    let parts = RawParts { ptr: vec![1, 2], len: vec![0, 0], cap: vec![4, 4], user_data: info };
    let buf = Buffer::reconstruct(parts);
    let back = buf.into_fixed().unwrap_err();
    assert_eq!(back.len(), 2);
    assert_eq!(back.user_data(), info);
}
