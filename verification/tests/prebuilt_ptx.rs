use qwen3_asr::prebuilt_ptx::{
    ptx_for_sm, resolve_ptx_for_device, select_prebuilt_sm, sm_code, PtxTexts, MIN_SM, PREBUILT_SMS,
};

const BODY: &str = "
.address_size 64
.visible .entry rms_norm_f16()
{
    ret;
}
// one entry is enough to tell the texts apart here
";

fn leak(sm: u32) -> &'static str {
    Box::leak(format!("//\n.version 7.0\n.target sm_{sm}\n{BODY}").into_boxed_str())
}

fn texts() -> PtxTexts {
    PtxTexts {
        sm61: leak(61),
        sm70: leak(70),
        sm75: leak(75),
        sm80: leak(80),
        sm86: leak(86),
        sm89: leak(89),
        sm90: leak(90),
    }
}

#[test]
fn selects_exact_and_floor() {
    assert_eq!(select_prebuilt_sm(61), Some(61));
    assert_eq!(select_prebuilt_sm(86), Some(86));
    assert_eq!(select_prebuilt_sm(89), Some(89));
    assert_eq!(select_prebuilt_sm(87), Some(86)); // between 86 and 89
    assert_eq!(select_prebuilt_sm(75), Some(75));
    assert_eq!(select_prebuilt_sm(100), Some(90)); // newer than list: highest
}

#[test]
fn rejects_below_minimum() {
    assert_eq!(select_prebuilt_sm(60), None);
    assert_eq!(select_prebuilt_sm(50), None);
    assert!(resolve_ptx_for_device(&texts(), 5, 0).is_err());
}

#[test]
fn embeds_nonempty_ptx_for_all_prebuilt() {
    let texts = texts();
    for &sm in PREBUILT_SMS {
        let ptx = ptx_for_sm(&texts, sm).unwrap_or_else(|| panic!("missing PTX sm_{sm}"));
        assert!(
            ptx.len() > 100 && ptx.contains(".version"),
            "PTX for sm_{sm} looks empty/invalid (len={})",
            ptx.len()
        );
        assert!(ptx.contains(&format!(".target sm_{sm}\n")));
    }
}

#[test]
fn resolve_p104_and_3060ti() {
    let texts = texts();
    let (_, sm61) = resolve_ptx_for_device(&texts, 6, 1).unwrap();
    assert_eq!(sm61, 61);
    let (_, sm86) = resolve_ptx_for_device(&texts, 8, 6).unwrap();
    assert_eq!(sm86, 86);
}

#[test]
fn resolve_gives_the_text_of_the_selected_architecture() {
    let texts = texts();
    let (ptx, sm) = resolve_ptx_for_device(&texts, 8, 7).unwrap();
    assert_eq!(sm, 86);
    assert_eq!(ptx, texts.sm86);
}

#[test]
fn too_old_device_is_named_in_the_message() {
    let message = resolve_ptx_for_device(&texts(), 6, 0).unwrap_err();
    assert_eq!(
        message,
        "GPU compute capability sm_60 is below the minimum supported sm_61"
    );
}

#[test]
fn architectures_without_kernels_have_no_text() {
    let texts = texts();
    assert_eq!(ptx_for_sm(&texts, 62), None);
    assert_eq!(ptx_for_sm(&texts, 0), None);
}

#[test]
fn sm_code_puts_major_before_minor() {
    assert_eq!(sm_code(8, 6), 86);
    assert_eq!(sm_code(12, 0), 120);
    assert_eq!(MIN_SM, PREBUILT_SMS[0]);
}

#[test]
fn newer_device_never_gets_older_kernels() {
    let mut last = 0;
    for device in 61..130 {
        let sm = select_prebuilt_sm(device).unwrap();
        assert!(last <= sm && sm <= device);
        last = sm;
    }
}
