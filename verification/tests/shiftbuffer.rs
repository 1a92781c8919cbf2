use loginus::shiftbuffer::Pointer;
use loginus::shiftbuffer::ShiftBuffer;

#[test]
fn store_simple_string() {
    let input_string = "ABC";
    let mut sbuf = ShiftBuffer::<u8>::new(1 << 10);
    let (lower, upper) = (sbuf.lower(), sbuf.extend(3));

    let mut cursor = lower;
    for b in input_string.as_bytes() {
        sbuf[cursor] = *b;
        cursor += 1;
    }

    assert_eq!(&sbuf[lower..upper], input_string.as_bytes());
}

#[test]
fn pointer_arithmetic() {
    let p = Pointer::default();
    assert_eq!(p.abs(), 0);
    let q = p + 7;
    assert_eq!(q.abs(), 7);
    assert_eq!(q - p, 7);
    assert_eq!((q - 3).abs(), 4);
    let mut r = q;
    r += 5;
    assert_eq!(r.abs(), 12);
    r -= 2;
    assert_eq!(r.abs(), 10);
    assert!(p < q && q < r);
    assert_eq!(q, Pointer::default() + 7);
}

#[test]
fn new_buffer_is_empty_window_at_zero() {
    let mut sbuf = ShiftBuffer::<u8>::new(8);
    assert_eq!(sbuf.capacity(), 8);
    assert_eq!(sbuf.lower().abs(), 0);
    assert_eq!(sbuf.upper().abs(), 0);
    assert_eq!(sbuf.free().len(), 8);
}

#[test]
fn extend_and_shrink_move_the_window() {
    let mut sbuf = ShiftBuffer::<u8>::new(8);
    sbuf.free()[..5].copy_from_slice(b"hello");
    assert_eq!(sbuf.extend(5).abs(), 5);
    assert_eq!(sbuf.shrink(2).abs(), 2);
    let (l, u) = (sbuf.lower(), sbuf.upper());
    assert_eq!(&sbuf[l..u], b"llo");
    assert_eq!(sbuf.relative_pos(l), 2);
    assert_eq!(sbuf.free().len(), 3);
    // The lower end may reach the upper end, but not cross it.
    assert_eq!(sbuf.shrink(3).abs(), 5);
    assert_eq!(sbuf.lower(), sbuf.upper());
}

#[test]
fn make_room_leaves_a_buffer_with_room_alone() {
    let mut sbuf = ShiftBuffer::<u8>::new(8);
    sbuf.free()[..3].copy_from_slice(b"abc");
    sbuf.extend(3);
    sbuf.shrink(1);
    assert_eq!(sbuf.make_room().len(), 5);
    assert_eq!(sbuf.capacity(), 8);
    assert_eq!(sbuf.relative_pos(sbuf.lower()), 1);
}

#[test]
fn make_room_grows_a_full_buffer_that_can_discard_nothing() {
    let mut sbuf = ShiftBuffer::<u8>::new(4);
    sbuf.free().copy_from_slice(b"abcd");
    sbuf.extend(4);
    let free = sbuf.make_room();
    assert_eq!(free.len(), 4);
    assert_eq!(sbuf.capacity(), 8);
    let (l, u) = (sbuf.lower(), sbuf.upper());
    assert_eq!(&sbuf[l..u], b"abcd");
    assert_eq!(sbuf.relative_pos(l), 0);
}

#[test]
fn make_room_shifts_a_full_buffer_that_can_discard() {
    let mut sbuf = ShiftBuffer::<u8>::new(4);
    sbuf.free().copy_from_slice(b"abcd");
    sbuf.extend(4);
    sbuf.shrink(3);
    let kept = sbuf.lower();
    assert_eq!(sbuf[kept], b'd');
    let free = sbuf.make_room();
    assert_eq!(free.len(), 3);
    assert_eq!(sbuf.capacity(), 4);
    // The pointer still finds its byte, now at the start of the store.
    assert_eq!(sbuf[kept], b'd');
    assert_eq!(sbuf.relative_pos(kept), 0);
    assert_eq!(sbuf.lower().abs(), 3);
    assert_eq!(sbuf.upper().abs(), 4);
}

#[test]
fn shift_moves_the_window_to_the_start() {
    let mut sbuf = ShiftBuffer::<u8>::new(8);
    sbuf.free()[..6].copy_from_slice(b"abcdef");
    sbuf.extend(6);
    sbuf.shrink(2);
    let (l, u) = (sbuf.lower(), sbuf.upper());
    sbuf.shift();
    assert_eq!(&sbuf[l..u], b"cdef");
    assert_eq!(sbuf.relative_pos(l), 0);
    assert_eq!(sbuf.relative_pos(u), 4);
    assert_eq!(sbuf.free().len(), 4);
}

#[test]
fn pointers_survive_growth_extension_and_shift() {
    let mut sbuf = ShiftBuffer::<u8>::new(4);
    sbuf.free().copy_from_slice(b"wxyz");
    sbuf.extend(4);
    let p = sbuf.lower() + 2;
    assert_eq!(sbuf[p], b'y');
    sbuf.make_room()[..2].copy_from_slice(b"12");
    assert_eq!(sbuf[p], b'y');
    sbuf.extend(2);
    assert_eq!(sbuf[p], b'y');
    sbuf.shrink(1);
    sbuf.shift();
    assert_eq!(sbuf[p], b'y');
    let (l, u) = (sbuf.lower(), sbuf.upper());
    assert_eq!(&sbuf[l..u], b"xyz12");
}

#[test]
fn clone_window_copies_exactly_the_window() {
    let mut sbuf = ShiftBuffer::<u8>::new(8);
    sbuf.free()[..6].copy_from_slice(b"abcdef");
    sbuf.extend(6);
    sbuf.shrink(2);
    let copy = sbuf.clone_window();
    assert_eq!(copy.capacity(), 4);
    assert_eq!(copy.lower(), sbuf.lower());
    assert_eq!(copy.upper(), sbuf.upper());
    let (l, u) = (copy.lower(), copy.upper());
    assert_eq!(&copy[l..u], b"cdef");
    // The copy does not follow the buffer it was made from.
    let first = sbuf.lower();
    sbuf[first] = b'!';
    assert_eq!(copy[first], b'c');
}
