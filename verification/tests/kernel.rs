use nnos::dtb::dtb_total_size;
use nnos::executor::Executor;
use nnos::gic::{enable_bit, irq_id, is_uart_irq, needs_eoi};
use nnos::ramdisk::{Ramdisk, RamdiskError};
use nnos::ringbuf::RingBuffer;
use nnos::serial::Serial;
use nnos::shell::{CommandBuffer, LineEvent};
use nnos::stdio::{print, printb, printv};

#[test]
fn ring_is_first_in_first_out() {
    let mut r = RingBuffer::new();
    assert_eq!(r.pop(), None);
    r.push(1);
    r.push(2);
    r.push(3);
    assert_eq!(r.pop(), Some(1));
    r.push(4);
    assert_eq!(r.pop(), Some(2));
    assert_eq!(r.pop(), Some(3));
    assert_eq!(r.pop(), Some(4));
    assert_eq!(r.pop(), None);
}

#[test]
fn ring_holds_255_and_drops_the_rest() {
    let mut r = RingBuffer::new();
    for i in 0..300u32 {
        r.push(i as u8);
    }
    for i in 0..255u32 {
        assert_eq!(r.pop(), Some(i as u8));
    }
    assert_eq!(r.pop(), None);
}

#[test]
fn ring_wraps_around() {
    let mut r = RingBuffer::new();
    for round in 0..10u32 {
        for i in 0..200u32 {
            r.push((i + round) as u8);
        }
        for i in 0..200u32 {
            assert_eq!(r.pop(), Some((i + round) as u8));
        }
    }
    assert_eq!(r.pop(), None);
}

#[test]
fn serial_queues_output_in_order() {
    let mut s = Serial::new();
    s.print("ab");
    s.wb(b'c');
    let mut line = CommandBuffer::new();
    line.feed(b'x');
    line.feed(b'y');
    s.printb(&line.buf, line.len);
    s.printv(&vec![1, 2]);
    assert_eq!(s.take_pending(), b"abcxy\x01\x02".to_vec());
    assert!(s.take_pending().is_empty());
}

#[test]
fn serial_reads_received_bytes() {
    let mut s = Serial::new();
    assert_eq!(s.rb(), None);
    s.handle_rx(b'h');
    s.handle_rx(b'i');
    assert_eq!(s.rb(), Some(b'h'));
    assert_eq!(s.rb(), Some(b'i'));
    assert_eq!(s.rb(), None);
}

#[test]
fn stdio_writes_lines() {
    let mut con = Serial::new();
    print(&mut con, "> ");
    nnos::stdio::println(&mut con, "booted");
    let mut cmd = CommandBuffer::new();
    cmd.feed(b'o');
    cmd.feed(b'k');
    printb(&mut con, &cmd);
    printv(&mut con, &b"!".to_vec());
    assert_eq!(con.take_pending(), b"> booted\r\nok!".to_vec());
}

#[test]
fn line_editing() {
    let mut c = CommandBuffer::new();
    assert_eq!(c.feed(b'l'), LineEvent::Stored);
    assert_eq!(c.feed(b's'), LineEvent::Stored);
    assert_eq!(c.feed(b'\r'), LineEvent::Complete);
    assert_eq!(&c.buf[..c.len], b"ls");
    assert_eq!(c.feed(b'\n'), LineEvent::Complete);
    c.clear();
    assert_eq!(c.len, 0);
}

#[test]
fn line_overflows_after_256_bytes() {
    let mut c = CommandBuffer::new();
    for _ in 0..256 {
        assert_eq!(c.feed(b'a'), LineEvent::Stored);
    }
    assert_eq!(c.feed(b'b'), LineEvent::Overflow);
    assert_eq!(c.len, 256);
    assert!(c.buf.iter().all(|b| *b == b'a'));
}

#[test]
fn executor_runs_in_ready_order() {
    let mut e: Executor<u32> = Executor::new();
    assert!(e.is_idle());
    e.spawn(1);
    e.spawn(2);
    assert_eq!(e.next_ready(), Some(1));
    e.wake_task(1);
    assert!(!e.is_idle());
    assert_eq!(e.next_ready(), Some(2));
    assert_eq!(e.next_ready(), Some(1));
    assert_eq!(e.next_ready(), None);
    assert!(e.is_idle());
}

#[test]
fn ramdisk_bounds() {
    let rd = Ramdisk { ptr: 0x4000_0000, len: 1024 };
    assert_eq!(rd.check_access(0, 1024), Ok(0));
    assert_eq!(rd.check_access(1000, 24), Ok(1000));
    assert_eq!(rd.check_access(1000, 25), Err(RamdiskError::OutOfBounds));
    assert_eq!(rd.check_access(1025, 0), Err(RamdiskError::OutOfBounds));
    assert_eq!(RamdiskError::OutOfBounds.message(), "r/w out of bounds");
}

#[test]
fn dtb_header() {
    let h = [0xD0, 0x0D, 0xFE, 0xED, 0x00, 0x00, 0x12, 0x34];
    assert_eq!(dtb_total_size(&h), Some(0x1234));
    let bad = [0xED, 0xFE, 0x0D, 0xD0, 0x00, 0x00, 0x12, 0x34];
    assert_eq!(dtb_total_size(&bad), None);
}

#[test]
fn gic_arithmetic() {
    assert_eq!(irq_id(0xFFFF_FC21), 33);
    assert!(is_uart_irq(irq_id(33)));
    assert!(!is_uart_irq(34));
    assert!(needs_eoi(33));
    assert!(!needs_eoi(1023));
    assert_eq!(enable_bit(33), 2);
    assert_eq!(enable_bit(32), 1);
    assert_eq!(enable_bit(63), 1 << 31);
}

#[test]
fn int8_dot_product() {
    let w: [i8; 7] = [1, -2, 3, -4, 5, -6, 7];
    let x: [i8; 7] = [7, 6, 5, 4, 3, 2, 1];
    // 7 - 12 + 15 - 16 + 15 - 12 + 7
    assert_eq!(nnos::quant::dot_i8(&w, &x), 4);
    assert_eq!(nnos::quant::dot_i8(&[], &[]), 0);
    let big = vec![-128i8; 1280];
    assert_eq!(nnos::quant::dot_i8(&big, &big), 1280 * 16384);
    assert!(nnos::quant::dot_i8(&big, &big) <= i32::MAX as i128);
    let widest = vec![-128i8; 4096];
    assert_eq!(nnos::quant::dot_i8(&widest, &widest), 4096 * 16384);
    assert!(nnos::quant::dot_i8(&widest, &widest) <= i32::MAX as i128);
}
