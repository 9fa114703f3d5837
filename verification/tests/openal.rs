use touchhle::mem::Mem;
use touchhle::openal::{
    alBufferDataStatic, alcOpenDevice_name_accepted, alGetBoolean, alGetBooleanv, alGetFloatv, alGetInteger, alIsEnabled, alSourcePlayv,
    alcGetEnumValue, alcGetIntegerv, alcIsExtensionPresent, checked_count, doppler_velocity_ignored, unqueue_count,
    OpenAL, ALC_FREQUENCY, ALC_INVALID_DEVICE, ALC_SYNC, AL_VENDOR,
};

fn read_cstr(mem: &Mem, addr: u32) -> String {
    String::from_utf8(mem.cstr_at(addr).unwrap()).unwrap()
}

#[test]
fn counts_refuse_negatives() {
    assert_eq!(checked_count(-1), None);
    assert_eq!(checked_count(0), Some(0));
    assert_eq!(checked_count(7), Some(7));
    assert_eq!(alBufferDataStatic(-5), None);
    assert_eq!(alBufferDataStatic(1024), Some(1024));
}

#[test]
fn unqueue_is_capped_at_processed_buffers() {
    assert_eq!(unqueue_count(2, 5), Some(2));
    assert_eq!(unqueue_count(5, 2), Some(2));
    assert_eq!(unqueue_count(-1, 3), None);
    assert_eq!(unqueue_count(3, -1), None);
}

#[test]
fn wolf3d_zero_doppler_velocity_is_ignored() {
    assert!(doppler_velocity_ignored("com.idsoftware.wolf3d", true));
    assert!(doppler_velocity_ignored("nu.r3.wolf3dlite", true));
    assert!(!doppler_velocity_ignored("com.idsoftware.wolf3d", false));
    assert!(!doppler_velocity_ignored("com.example.other", true));
}

#[test]
fn device_and_context_lifecycle() {
    let mut mem = Mem::new(0x1000, 0x100);
    let mut al = OpenAL::new();
    assert_eq!(al.alcGetError(0), Some(ALC_INVALID_DEVICE));
    let d = al.register_device(&mut mem);
    assert!(al.is_device(d));
    assert_eq!(al.alcGetError(d), None);
    assert!(al.alcCreateContext(&mem, d + 4, 0).is_err());
    assert_eq!(al.alcCreateContext(&mem, d, 0), Ok(None));
    let c = al.register_context(&mut mem);
    assert!(al.is_context(c));
    assert!(!al.has_current_context());
    assert!(al.alcMakeContextCurrent(c));
    assert_eq!(al.alcGetCurrentContext(), c);
    assert!(al.has_current_context());
    assert!(!al.alcMakeContextCurrent(c + 16));
    assert_eq!(al.alcGetCurrentContext(), c);
    assert_eq!(al.alcGetContextsDevice(0), Some(0));
    assert_eq!(al.alcGetContextsDevice(c), None);
    assert!(al.alcProcessContext(c));
    assert!(!al.alcSuspendContext(0));
    al.alcDestroyContext(&mut mem, c);
    assert!(!al.is_context(c));
    assert!(!al.has_current_context());
    assert!(al.alcMakeContextCurrent(0));
    assert!(!al.alcCloseDevice(&mut mem, 0));
    assert!(al.alcCloseDevice(&mut mem, d));
    assert!(!al.is_device(d));
}

#[test]
fn context_attributes_are_filtered() {
    let mut mem = Mem::new(0x1000, 0x100);
    let mut al = OpenAL::new();
    let d = al.register_device(&mut mem);
    let list = 0x400u32;
    let words: [u32; 7] = [ALC_FREQUENCY as u32, 22050, 0x1234, 9, ALC_SYNC as u32, 0, 0];
    for (i, w) in words.iter().enumerate() {
        mem.write_u32(list + 4 * i as u32, *w);
    }
    assert_eq!(
        al.alcCreateContext(&mem, d, list),
        Ok(Some(vec![ALC_FREQUENCY, 22050, ALC_SYNC, 0, 0]))
    );
    let only_unknown = 0x500u32;
    mem.write_u32(only_unknown, 0x1234);
    mem.write_u32(only_unknown + 4, 1);
    mem.write_u32(only_unknown + 8, 0);
    assert_eq!(al.alcCreateContext(&mem, d, only_unknown), Ok(None));
}

#[test]
fn al_get_string_is_cached() {
    let mut mem = Mem::new(0x1000, 0x100);
    let mut al = OpenAL::new();
    let a = al.alGetString(&mut mem, AL_VENDOR);
    assert_eq!(read_cstr(&mem, a), "Apple Inc.");
    let b = al.alGetString(&mut mem, AL_VENDOR);
    assert_eq!(a, b);
    let e = al.alGetString(&mut mem, 0xA003);
    assert_eq!(read_cstr(&mem, e), "Invalid Value");
    let unknown = al.alGetString(&mut mem, 0x1);
    assert_eq!(read_cstr(&mem, unknown), "");
}

#[test]
fn source_lists_are_read_from_guest_memory() {
    let mut mem = Mem::new(0x1000, 0x100);
    mem.write_u32(0x200, 11);
    mem.write_u32(0x204, 12);
    assert_eq!(alSourcePlayv(&mem, 2, 0x200), vec![11, 12]);
    assert!(alSourcePlayv(&mem, 0, 0x200).is_empty());
    assert!(alSourcePlayv(&mem, 2, 0).is_empty());
}

#[test]
fn unimplemented_queries_answer_zero() {
    let mut mem = Mem::new(0x1000, 0x100);
    for i in 0..16u32 {
        mem.write_u8(0x300 + i, 0xff);
    }
    alcGetIntegerv(&mut mem, 0, 2, 0x300);
    for i in 0..8u32 {
        assert_eq!(mem.read_u8(0x300 + i), 0);
    }
    assert_eq!(mem.read_u8(0x308), 0xff);
    alGetBooleanv(&mut mem, 0, 0x308);
    assert_eq!(mem.read_u8(0x308), 0);
    assert_eq!(mem.read_u8(0x309), 0xff);
    alGetFloatv(&mut mem, 0, 0x30c);
    assert_eq!(mem.read_u32(0x30c), 0);
    assert_eq!(alGetBoolean(1), 0);
    assert_eq!(alGetInteger(1), 0);
    assert_eq!(alIsEnabled(1), 0);
    assert_eq!(alcIsExtensionPresent(0, 0), 0);
    assert_eq!(alcGetEnumValue(0, 0), 0);
}

#[test]
fn open_device_accepts_only_its_own_name() {
    let mut mem = Mem::new(0x1000, 0x100);
    let name = b"touchHLE OpenAL device\0";
    let other = b"Some other device\0";
    for (k, b) in name.iter().enumerate() {
        mem.write_u8(0x200 + k as u32, *b);
    }
    for (k, b) in other.iter().enumerate() {
        mem.write_u8(0x300 + k as u32, *b);
    }
    let spec = b"touchHLE OpenAL device";
    assert!(alcOpenDevice_name_accepted(&mem, 0, spec));
    assert!(alcOpenDevice_name_accepted(&mem, 0x200, spec));
    assert!(!alcOpenDevice_name_accepted(&mem, 0x300, spec));
    assert!(!alcOpenDevice_name_accepted(&mem, 0x200, b"touchHLE OpenAL"));
}

#[test]
fn get_string_asks_for_known_devices_only() {
    let mut mem = Mem::new(0x1000, 0x100);
    let mut al = OpenAL::new();
    let d = al.register_device(&mut mem);
    assert_eq!(al.alcGetString_device(d), d);
    assert_eq!(al.alcGetString_device(0), 0);
    assert_eq!(al.alcGetString_device(d + 4), 0);
}
