use spatiand::devices::{
    audio_devices, default_loopback, directions, find_node, friendly_name, is_our_own_plumbing,
    parse_devices, property_in, recordable, Direction,
};
use spatiand::wpctl;

/// Captured verbatim from the Deck with the glasses plugged in, because a parser for a
/// human-readable format is only ever as good as the samples it was written against.
const REAL: &str = r#"PipeWire 'pipewire-0' [1.6.4, deck@steamdeck, cookie:727404770]
 └─ Clients:
        32. WirePlumber                         [1.6.4, deck@steamdeck, pid:1392]
       106. wpctl                               [1.6.4, deck@steamdeck, pid:47032]

Audio
 ├─ Devices:
 │      69. Rembrandt Radeon High Definition Audio Controller [alsa]
 │      95. Air                                 [alsa]
 │      99. ACP/ACP3X/ACP6x Audio Coprocessor   [alsa]
 │  
 ├─ Sinks:
 │      62. ACP/ACP3X/ACP6x Audio Coprocessor Headphones [vol: 1.00]
 │      66. ACP/ACP3X/ACP6x Audio Coprocessor Speaker [vol: 0.24]
 │  *   81. Air Analog Stereo                   [vol: 0.32]
 │  
 ├─ Sources:
 │      50. Air Mono                            [vol: 1.00]
 │      72. ACP/ACP3X/ACP6x Audio Coprocessor Internal Microphone [vol: 0.78]
 │  
 ├─ Filters:
 │    - loopback-1392-18                                            
 │  *   60. alsa_loopback_device.alsa_input.usb-Vendor_Air_A00011_32_00-00.mono-fallback [Audio/Source]
 │  
 └─ Streams:

Video
 ├─ Devices:
 │  
 ├─ Sinks:
 │  
"#;

const INSPECT: &str = r#"id 215, type PipeWire:Interface:Node
    alsa.card = "1"
  * media.class = "Audio/Source"
  * node.name = "alsa_input.usb-Vendor_Air_A00011_32_00-00.mono-fallback"
"#;

#[test]
fn the_microphone_that_can_be_recorded_from_is_found_behind_the_one_that_is_shown() {
    // The wearer picks "Glasses Microphone", which is node 50. Recording from 50 yields
    // nothing on this machine; 60, its loopback copy, is where the sound is. The `*` in
    // front of 60 is there to be tripped over -- it marks the default, and it sits before
    // the id.
    let twin = find_node(
        REAL,
        "alsa_loopback_device.alsa_input.usb-Vendor_Air_A00011_32_00-00.mono-fallback",
    );
    assert_eq!(twin, Some(60));
}

#[test]
fn a_device_with_no_copy_of_itself_is_left_alone() {
    // Nothing matches, and the answer is that nothing matches -- not the first line that
    // happens to have a number in it. A machine that arranges its microphones normally
    // must come through this unchanged.
    assert_eq!(find_node(REAL, "alsa_loopback_device.alsa_input.nonesuch"), None);
    assert_eq!(find_node(REAL, "Air Mono"), Some(50));
}

#[test]
fn the_hidden_default_is_found_so_the_panel_can_show_one() {
    // The wearer's complaint, as a test: no device in the list carries the `*`, because
    // the default is node 60 down in `Filters:`. Without finding it the panel shows a
    // dot that appears when a microphone is picked and vanishes on the next read.
    let sources = parse_devices(REAL, Direction::Input);
    assert!(
        !sources.iter().any(|device| device.is_default),
        "nothing in the list is marked, which is the whole problem"
    );
    assert_eq!(default_loopback(REAL), Some(60));
}

#[test]
fn an_ordinary_default_is_not_mistaken_for_a_hidden_one() {
    // A machine that marks a real device needs no rescue, and an output default -- node
    // 81 in this capture -- must not be read as one either.
    assert!(parse_devices(REAL, Direction::Output).iter().any(|d| d.is_default));
    let plain = REAL.replace(
        "*   60. alsa_loopback_device",
        "    60. alsa_loopback_device",
    );
    assert_eq!(default_loopback(&plain), None);
}

#[test]
fn a_nodes_real_name_is_read_from_what_inspect_prints() {
    assert_eq!(
        property_in(INSPECT, "node.name").as_deref(),
        Some("alsa_input.usb-Vendor_Air_A00011_32_00-00.mono-fallback")
    );
    assert_eq!(property_in("id 4, type PipeWire:Interface:Node\n", "node.name"), None);
}

#[test]
fn finds_every_output_the_deck_actually_offers() {
    let sinks = parse_devices(REAL, Direction::Output);
    assert_eq!(sinks.len(), 3, "{sinks:#?}");
    assert_eq!(sinks.iter().map(|d| d.id).collect::<Vec<_>>(), [62, 66, 81]);
    assert_eq!(sinks[2].name, "Glasses");
    assert!(sinks[2].is_default, "the asterisk marks the one in use");
    assert!(!sinks[0].is_default && !sinks[1].is_default);
}

#[test]
fn finds_every_input() {
    let sources = parse_devices(REAL, Direction::Input);
    assert_eq!(sources.len(), 2, "{sources:#?}");
    assert_eq!(sources[0].name, "Glasses Microphone");
    assert_eq!(sources[1].name, "Deck Microphone");
}

#[test]
fn a_sections_devices_do_not_leak_into_the_next() {
    // The failure this guards: `Sources:` is followed by `Filters:`, and on this machine
    // the filter list contains an entry marked default. Running past the end of a section
    // would offer the wearer a loopback node called
    // "alsa_loopback_device.alsa_input.usb-Vendor_Air..." as though it were a microphone.
    for direction in directions() {
        for device in parse_devices(REAL, direction) {
            assert!(
                !device.name.contains("loopback"),
                "{direction:?} picked up a filter: {device:?}"
            );
        }
    }
}

#[test]
fn the_deck_speakers_are_named_for_the_deck() {
    // The wearer's requirement, quite literally: the glasses, the Deck and a headset have
    // to be recognisable at a glance.
    let sinks = parse_devices(REAL, Direction::Output);
    let names: Vec<&str> = sinks.iter().map(|d| d.name.as_str()).collect();
    assert_eq!(names, ["Deck Headphones", "Deck Speaker", "Glasses"]);
}

#[test]
fn an_unknown_device_still_appears_under_its_own_name() {
    // A USB interface or a Bluetooth speaker nobody wrote a rule for must still be
    // offered. Hiding what we cannot prettify would make the picker silently incomplete,
    // which is the one thing a picker must never be.
    let text = " ├─ Sinks:\n │      90. Jabra Evolve2 65 \n │  \n ├─ Sources:\n";
    let sinks = parse_devices(text, Direction::Output);
    assert_eq!(sinks.len(), 1);
    assert_eq!(sinks[0].name, "Jabra Evolve2 65");
}

#[test]
fn nothing_at_all_is_not_an_error() {
    // No sound server, or a machine mid-boot. An empty list means the panel shows no
    // devices; it must not mean a panic on a screen nobody can get back from.
    assert!(parse_devices("", Direction::Output).is_empty());
    assert!(parse_devices("Audio\n ├─ Sinks:\n │  \n", Direction::Output).is_empty());
}

#[test]
fn a_name_that_is_only_noise_keeps_its_original() {
    // "Air Mono" maps to a real name, but a device called just "Mono" would be erased
    // entirely by the tidying rules. Better an odd name than a blank row.
    assert_eq!(friendly_name("Mono"), "Mono");
    assert_eq!(friendly_name("Analog Stereo"), "Analog Stereo");
}

#[test]
fn tidying_does_not_leave_double_spaces_behind() {
    // Removing a word from the middle of a name leaves two spaces where one belongs, and
    // the gap is obvious in a proportional font.
    let name = friendly_name("Air Analog Stereo");
    assert!(!name.contains("  "), "{name:?}");
    assert_eq!(name, "Glasses");
}

#[test]
fn a_windows_own_sink_is_not_offered_as_somewhere_to_send_sound() {
    // Every window that makes a sound has one of these. They are real sinks and a sound
    // server lists them, so without filtering the picker fills with a row per window, all
    // named the same, none of them anywhere a person wants their sound to go.
    let text = "\
Audio
 ├─ Sinks:
 │  *   92. Air Analog Stereo                   [vol: 0.63]
 │      96. ACP/ACP3X/ACP6x Audio Coprocessor Speaker [vol: 0.30]
 │     166. Spatiand window                     [vol: 1.00]
 │     201. Spatiand window                     [vol: 1.00]
 │  
 ├─ Sources:
";
    let devices = parse_devices(text, Direction::Output);
    let names: Vec<&str> = devices.iter().map(|d| d.name.as_str()).collect();
    assert!(
        !names.iter().any(|n| n.contains("Spatiand window")),
        "our own plumbing was offered: {names:?}"
    );
    // And the real ones survive, which is the half that would be easy to break.
    assert_eq!(devices.len(), 2, "{names:?}");
    assert!(devices[0].is_default);
}

#[test]
fn a_chosen_microphone_is_swapped_for_the_copy_that_can_be_recorded() {
    let inspected = "  * node.name = \"alsa_input.usb-Vendor_Air_A00011_32_00-00.mono-fallback\"\n";
    assert_eq!(recordable(50, Some(inspected), Some(REAL)), 60);
    assert_eq!(recordable(50, None, Some(REAL)), 50);
    assert_eq!(recordable(81, Some("  * node.name = \"other\"\n"), Some(REAL)), 81);
}

#[test]
fn the_input_in_front_of_a_hidden_default_is_marked() {
    let inspected = "  * node.description = \"Air Mono\"\n";
    let audio = audio_devices(REAL, Some(inspected));
    assert_eq!(audio.outputs.len(), 3);
    assert!(audio.list(Direction::Input)[0].is_default);
    assert!(!audio.list(Direction::Input)[1].is_default);
}

#[test]
fn our_own_plumbing_is_recognised_by_its_whole_name() {
    assert!(is_our_own_plumbing(" Spatiand window "));
    assert!(!is_our_own_plumbing("Spatiand windows"));
}

#[test]
fn the_sound_server_is_asked_in_its_own_words() {
    assert_eq!(wpctl::volume(), ["get-volume", "@DEFAULT_AUDIO_SINK@"]);
    assert_eq!(wpctl::set_volume(450_000), ["set-volume", "@DEFAULT_AUDIO_SINK@", "0.450"]);
    assert_eq!(wpctl::set_volume(1_700_000), ["set-volume", "@DEFAULT_AUDIO_SINK@", "1.000"]);
    assert_eq!(wpctl::set_muted(true), ["set-mute", "@DEFAULT_AUDIO_SINK@", "1"]);
    assert_eq!(wpctl::set_muted(false), ["set-mute", "@DEFAULT_AUDIO_SINK@", "0"]);
    assert_eq!(wpctl::toggle_mute(), ["set-mute", "@DEFAULT_AUDIO_SINK@", "toggle"]);
    assert_eq!(wpctl::status(), ["status"]);
    assert_eq!(wpctl::inspect(60), ["inspect", "60"]);
    assert_eq!(wpctl::set_default_device(7), ["set-default", "7"]);
}

#[test]
fn the_glasses_are_matched_on_the_word() {
    assert_eq!(friendly_name("Air"), "Glasses");
    assert_eq!(friendly_name("Air Mono"), "Glasses Microphone");
    assert_eq!(friendly_name("USB-Air (Air) Speaker"), "USB-Glasses (Glasses) Speaker");
    // Not where its letters are part of another name.
    assert_eq!(friendly_name("AirPods Pro"), "AirPods Pro");
    assert_eq!(friendly_name("MacAir"), "MacAir");
    assert_eq!(friendly_name("Air2 Speaker"), "Air2 Speaker");
    assert_eq!(friendly_name("Air\u{e9} Speaker"), "Air\u{e9} Speaker");
    assert_eq!(friendly_name("\u{663}Air"), "\u{663}Air");
    // A mark is no part of a word, in any script.
    assert_eq!(friendly_name("Air\u{2122} Speaker"), "Glasses\u{2122} Speaker");
    assert_eq!(friendly_name("\u{201c}Air\u{201d}"), "\u{201c}Glasses\u{201d}");
}
