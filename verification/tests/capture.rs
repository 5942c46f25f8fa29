use tutanak::capture::{
    default_mic_source, default_monitor_source, ffmpeg_args, first_monitor_source, mix_plan, monitor_of_sink,
    parecord_args, source_for, unload_order, CaptureError, Source,
};

fn s(x: &str) -> String {
    x.to_string()
}

const LISTING: &str = "0\talsa_input.pci.analog-stereo\tmodule-alsa-card.c\ts16le 2ch 44100Hz\tSUSPENDED\n\
1\talsa_output.pci.analog-stereo.monitor\tmodule-alsa-card.c\ts16le 2ch 44100Hz\tIDLE\n\
2\tother.monitor\tx\n";

#[test]
fn monitor_of_the_default_sink() {
    assert_eq!(monitor_of_sink(&Some(s("alsa_output.pci\n"))).as_deref(), Some("alsa_output.pci.monitor"));
    assert_eq!(monitor_of_sink(&Some(s("  \n"))), None);
    assert_eq!(monitor_of_sink(&None), None);
    assert_eq!(default_monitor_source(&Some(s("sink")), "").as_deref(), Ok("sink.monitor"));
}

#[test]
fn falls_back_to_the_first_listed_monitor() {
    assert_eq!(first_monitor_source(LISTING).as_deref(), Some("alsa_output.pci.analog-stereo.monitor"));
    assert_eq!(default_monitor_source(&None, LISTING).as_deref(), Ok("alsa_output.pci.analog-stereo.monitor"));
    assert_eq!(first_monitor_source("0 x.monitor\n"), Some(s("x.monitor")));
    assert_eq!(first_monitor_source("x.monitor\n"), None);
}

#[test]
fn no_monitor_is_an_error() {
    let e = default_monitor_source(&Some(String::new()), "0\tmic\tmod\n").unwrap_err();
    assert_eq!(e, CaptureError::NoMonitorSource);
    assert_eq!(e.message(), "Sistem sesi (monitor source) bulunamadı. Çıkış cihazını kontrol et.");
}

#[test]
fn default_microphone() {
    assert_eq!(default_mic_source(&Some(s(" alsa_input.usb \n"))).as_deref(), Ok("alsa_input.usb"));
    let e = default_mic_source(&Some(s(""))).unwrap_err();
    assert_eq!(e, CaptureError::NoMicrophone);
    assert_eq!(e.message(), "Varsayılan mikrofon bulunamadı. Giriş cihazını kontrol et.");
    assert_eq!(default_mic_source(&None), Err(CaptureError::NoMicrophone));
}

#[test]
fn mix_wiring() {
    let p = mix_plan("mic0", "sink.monitor", 4242);
    assert_eq!(p.sink_name, "tutanak_mix_4242");
    assert_eq!(
        p.modules,
        vec![
            vec![s("module-null-sink"), s("sink_name=tutanak_mix_4242"), s("sink_properties=device.description=tutanak-mix")],
            vec![s("module-loopback"), s("source=mic0"), s("sink=tutanak_mix_4242"), s("latency_msec=30")],
            vec![s("module-loopback"), s("source=sink.monitor"), s("sink=tutanak_mix_4242"), s("latency_msec=30")],
        ]
    );
    assert_eq!(p.record_device, "tutanak_mix_4242.monitor");
    assert_eq!(unload_order(&vec![s("1"), s("2"), s("3")]), vec![s("3"), s("2"), s("1")]);
}

#[test]
fn recorder_and_import_command_lines() {
    assert_eq!(
        parecord_args("dev.monitor", "/tmp/a.wav"),
        vec!["--device=dev.monitor", "--format=s16le", "--rate=16000", "--channels=1", "--file-format=wav", "/tmp/a.wav"]
    );
    assert_eq!(
        ffmpeg_args("in.mp4", "out.wav"),
        vec!["-y", "-i", "in.mp4", "-ar", "16000", "-ac", "1", "-f", "wav", "out.wav"]
    );
    assert_eq!(source_for(true), Source::SystemOnly);
    assert_eq!(source_for(false), Source::MicAndSystem);
}
