use chariot_client::audio::AudioThreadHandle;
use chariot_client::resources::framebuffer::{framebuffer_register_name, FramebufferRegistry};
use chariot_client::resources::{
    rgb8_to_rgba8, Handle, HandleCounter, MaterialHandle, StaticMeshHandle, TextureHandle,
};
use chariot_client::util::{Pcg32Rng, Rng};

#[test]
fn pcg32_default_sequence() {
    let mut rng = Pcg32Rng::default();
    let a: u32 = rng.next();
    let b: u32 = rng.next();
    let c: u32 = rng.next();
    let d: u32 = rng.next();
    assert_eq!([a, b, c, d], [3221547701, 594639544, 3840210462, 2035581469]);
}

#[test]
fn pcg32_unit_bits() {
    let mut rng = Pcg32Rng::default();
    assert_eq!(rng.next_unit_bits(), 0x3fe0_0275);
    let mut same = Pcg32Rng::default();
    let first: u32 = same.next();
    assert_eq!(first >> 9 | 0x3f80_0000, 0x3fe0_0275);
}

#[test]
fn pcg32_same_state_same_output() {
    let mut a = Pcg32Rng::from_parts(12345, 678);
    let mut b = Pcg32Rng::from_parts(12345, 678);
    for _ in 0..10 {
        let x: u32 = a.next();
        let y: u32 = b.next();
        assert_eq!(x, y);
    }
}

#[test]
fn rgb_to_rgba_adds_alpha() {
    assert_eq!(rgb8_to_rgba8(&[1, 2, 3, 4, 5, 6]), vec![1, 2, 3, 255, 4, 5, 6, 255]);
    assert_eq!(rgb8_to_rgba8(&[1, 2, 3, 4, 5, 6, 7]), vec![1, 2, 3, 255, 4, 5, 6, 255, 7, 255]);
    assert_eq!(rgb8_to_rgba8(&[9, 8]), vec![9, 8, 255]);
    assert_eq!(rgb8_to_rgba8(&[]), Vec::<u8>::new());
}

#[test]
fn handles_are_distinct_and_valid() {
    let mut counter = HandleCounter::new();
    let t1 = TextureHandle::unique(&mut counter);
    let t2 = TextureHandle::unique(&mut counter);
    assert!(t1 != t2);
    assert!(t1 != TextureHandle::invalid());
    assert!(t2 != TextureHandle::invalid());
    let mut mc = HandleCounter::new();
    let m1 = MaterialHandle::unique(&mut mc);
    assert!(m1 != MaterialHandle::invalid());
    let s1 = StaticMeshHandle::unique(&mut mc);
    let s2 = StaticMeshHandle::unique(&mut mc);
    assert!(s1 != s2);
    assert!(StaticMeshHandle::invalid() == StaticMeshHandle::invalid());
    let mut ac = HandleCounter::new();
    let a1 = AudioThreadHandle::unique(&mut ac);
    let a2 = AudioThreadHandle::unique(&mut ac);
    assert!(a1 != a2);
    assert_eq!(counter.take(), 2);
}

#[test]
fn framebuffer_names() {
    assert_eq!(framebuffer_register_name("shade_out", false), "shade_out.0");
    assert_eq!(framebuffer_register_name("shade_out", true), "shade_out.1");
    let mut counter = HandleCounter::new();
    let h: Vec<TextureHandle> = (0..4).map(|_| TextureHandle::unique(&mut counter)).collect();
    let mut reg = FramebufferRegistry::new();
    assert_eq!(reg.framebuffer_name("geometry", true), "geometry.0");
    reg.extend_framebuffer("geometry", &h[0..2], false);
    reg.extend_framebuffer("geometry", &h[2..3], true);
    assert!(reg.has_alt("geometry"));
    assert!(!reg.has_alt("shadow"));
    assert_eq!(reg.framebuffer_name("geometry", true), "geometry.1");
    assert_eq!(reg.framebuffer_name("geometry", false), "geometry.0");
    assert_eq!(reg.context_framebuffer_name("geometry", 3), "geometry.1");
    assert_eq!(reg.context_framebuffer_name("geometry", 4), "geometry.0");
    assert_eq!(reg.context_framebuffer_name("shadow", 3), "shadow.0");
}

#[test]
fn framebuffer_handles() {
    let mut counter = HandleCounter::new();
    let h: Vec<TextureHandle> = (0..4).map(|_| TextureHandle::unique(&mut counter)).collect();
    let mut reg = FramebufferRegistry::new();
    reg.extend_framebuffer("geometry", &h[0..2], false);
    reg.extend_framebuffer("shadow", &h[2..3], false);
    reg.extend_framebuffer("geometry", &h[3..4], false);
    assert!(reg.framebuffer_handle("geometry", 0, false) == Some(h[0]));
    assert!(reg.framebuffer_handle("geometry", 1, false) == Some(h[1]));
    assert!(reg.framebuffer_handle("geometry", 2, false) == Some(h[3]));
    assert!(reg.framebuffer_handle("geometry", 3, false).is_none());
    assert!(reg.framebuffer_handle("shadow", 0, false) == Some(h[2]));
    assert!(reg.framebuffer_handle("shadow", 0, true).is_none());
    assert!(reg.framebuffer_handle("missing", 0, false).is_none());
}
