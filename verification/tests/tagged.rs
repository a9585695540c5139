use sandpit::tagged::{Tag, Tagged};

#[derive(Clone, Copy, Debug, PartialEq, Eq)]
enum MyTag {
    Usize,
    Isize,
    Gc,
    RawData,
}

impl Tag for MyTag {
    const VARIANTS: usize = 4;
    const MIN_ALIGNMENT: usize = 8;

    fn into_usize(&self) -> usize {
        match self {
            MyTag::Usize => 0,
            MyTag::Isize => 1,
            MyTag::Gc => 2,
            MyTag::RawData => 3,
        }
    }

    fn from_usize(tag: usize) -> Option<Self> {
        match tag {
            0 => Some(MyTag::Usize),
            1 => Some(MyTag::Isize),
            2 => Some(MyTag::Gc),
            3 => Some(MyTag::RawData),
            _ => None,
        }
    }

    fn is_ptr(&self) -> bool {
        !matches!(self, MyTag::RawData)
    }

    // The trait's specification functions, as plain functions outside the
    // verifier.
    fn tag_value(&self) -> usize {
        self.into_usize()
    }

    fn tag_of(value: usize) -> Option<Self> {
        Self::from_usize(value)
    }

    fn tag_is_ptr(&self) -> bool {
        self.is_ptr()
    }
}

#[test]
fn test_raw_data_variant() {
    let tagged: Tagged<MyTag> = Tagged::from_raw(2048, MyTag::RawData);

    assert!(!tagged.is_ptr());
    assert!(matches!(tagged.get_tag(), MyTag::RawData));
    assert_eq!(tagged.get_stripped_raw(), 2048);
}

#[test]
fn tagging_replaces_only_the_low_bits() {
    assert_eq!(Tagged::<MyTag>::apply_tag(0b1010_0101, MyTag::RawData), 0b1010_0011);
    assert_eq!(Tagged::<MyTag>::strip_tag(0b1010_0111), 0b1010_0000);
    assert_eq!(Tagged::<MyTag>::get_raw_tag(0b1000_0010), MyTag::Gc);

    let tagged: Tagged<MyTag> = Tagged::from_raw(4097, MyTag::RawData);
    assert_eq!(tagged.get_raw(), 4096 | 3);
    assert_eq!(tagged.get_stripped_raw(), 4096);
}

#[test]
fn set_raw_overwrites_the_word() {
    let mut tagged: Tagged<MyTag> = Tagged::from_raw(64, MyTag::RawData);
    tagged.set_raw(1024, MyTag::RawData);

    assert_eq!(tagged.get_stripped_raw(), 1024);
    assert_eq!(tagged.clone().get_raw(), tagged.get_raw());
}

#[test]
fn words_with_an_unknown_tag_are_refused() {
    assert!(Tagged::<MyTag>::try_from(16 + 5).is_err());
    let accepted = Tagged::<MyTag>::try_from(16 + 1).unwrap();
    assert_eq!(accepted.get_raw(), 17);
    assert_eq!(accepted.get_tag(), MyTag::Isize);
    assert!(accepted.is_ptr());
}

struct WideTag;

impl Tag for WideTag {
    // more variants than the alignment leaves bits for: only constructing a
    // tagged word from a tag is refused, masking still works
    const VARIANTS: usize = 16;
    const MIN_ALIGNMENT: usize = 8;

    fn into_usize(&self) -> usize {
        0
    }

    fn from_usize(tag: usize) -> Option<Self> {
        if tag == 0 { Some(WideTag) } else { None }
    }

    fn is_ptr(&self) -> bool {
        false
    }

    fn tag_value(&self) -> usize {
        self.into_usize()
    }

    fn tag_of(value: usize) -> Option<Self> {
        Self::from_usize(value)
    }

    fn tag_is_ptr(&self) -> bool {
        self.is_ptr()
    }
}

#[test]
fn masking_needs_only_a_nonzero_alignment() {
    assert_eq!(Tagged::<WideTag>::strip_tag(0b1_0111), 0b1_0000);
    assert_eq!(Tagged::<WideTag>::apply_tag(0b1_0111, WideTag), 0b1_0000);
}
