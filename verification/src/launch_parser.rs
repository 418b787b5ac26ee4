//! The extractor: best-effort recovery of a structured configuration from an
//! arbitrary, possibly hand-edited launch script. Field-level gaps are
//! normal and silent; nothing here fails.
//!
//! All token rules are stated as spec functions so that the synthesizer can
//! promise to locate fields by exactly the same rules.

use vstd::prelude::*;

use crate::qemu_config::AudioDevice;
use crate::qemu_config::audio_token;
use crate::qemu_config::emulator_token;
use crate::qemu_config::DiskConfig;
use crate::qemu_config::DiskFormat;
use crate::qemu_config::NetworkConfig;
use crate::qemu_config::QemuConfig;
use crate::qemu_config::QemuEmulator;
use crate::qemu_config::VgaType;
use crate::qemu_config::spec_format_from_extension;
use crate::qemu_config::spec_vga_from_token;
use crate::text::attr_end;
use crate::text::contains_sub;
use crate::text::digits_end;
use crate::text::find_char_from;
use crate::text::find_from;
use crate::text::is_comment_line;
use crate::text::lemma_spec_digits_end;
use crate::text::lemma_spec_find_first;
use crate::text::parse_u32;
use crate::text::spec_attr_end;
use crate::text::spec_contains;
use crate::text::spec_digits_end;
use crate::text::spec_digits_val;
use crate::text::spec_find;
use crate::text::spec_find_char;
use crate::text::spec_is_comment_line;
use crate::text::spec_split_lines;
use crate::text::spec_token_end;
use crate::text::lemma_spec_find_char_first;
use crate::text::lemma_spec_rfind_char;
use crate::text::name_end;
use crate::text::replace_all;
use crate::text::rfind_char;
use crate::text::rtrim_end;
use crate::text::skip_spaces;
use crate::text::spec_name_end;
use crate::text::spec_replace_all;
use crate::text::lemma_spec_rfind;
use crate::text::rfind_sub;
use crate::text::spec_rfind;
use crate::text::spec_rfind_char;
use crate::text::spec_rtrim;
use crate::text::spec_skip_spaces;
use crate::text::split_lines;
use crate::text::token_end;

verus! {

broadcast use vstd::string::group_string_axioms;

/// The emulator named by the script: the first of the known binary names
/// that occurs anywhere in the text, in a fixed priority order.
pub open spec fn spec_extract_emulator(s: Seq<char>) -> Option<QemuEmulator> {
    if spec_contains(s, "qemu-system-x86_64"@) {
        Some(QemuEmulator::X86_64)
    } else if spec_contains(s, "qemu-system-i386"@) {
        Some(QemuEmulator::I386)
    } else if spec_contains(s, "qemu-system-ppc"@) {
        Some(QemuEmulator::Ppc)
    } else if spec_contains(s, "qemu-system-m68k"@) {
        Some(QemuEmulator::M68k)
    } else if spec_contains(s, "qemu-system-arm"@) {
        Some(QemuEmulator::Arm)
    } else if spec_contains(s, "qemu-system-aarch64"@) {
        Some(QemuEmulator::Aarch64)
    } else {
        None
    }
}

/// The emulator command the script invokes; first known name wins.
pub fn extract_emulator(content: &str) -> (r: Option<QemuEmulator>)
    ensures
        r == spec_extract_emulator(content@),
{
    if contains_sub(content, "qemu-system-x86_64") {
        Some(QemuEmulator::from_command("qemu-system-x86_64"))
    } else if contains_sub(content, "qemu-system-i386") {
        Some(QemuEmulator::from_command("qemu-system-i386"))
    } else if contains_sub(content, "qemu-system-ppc") {
        Some(QemuEmulator::from_command("qemu-system-ppc"))
    } else if contains_sub(content, "qemu-system-m68k") {
        Some(QemuEmulator::from_command("qemu-system-m68k"))
    } else if contains_sub(content, "qemu-system-arm") {
        Some(QemuEmulator::from_command("qemu-system-arm"))
    } else if contains_sub(content, "qemu-system-aarch64") {
        Some(QemuEmulator::from_command("qemu-system-aarch64"))
    } else {
        None
    }
}

/// Extracting the emulator from a script that consists of a known
/// emulator's canonical binary name yields that very emulator: the
/// extraction side of the table cannot confuse the known names.
pub proof fn lemma_extract_emulator_round_trip(e: QemuEmulator)
    requires
        e != QemuEmulator::Unknown,
    ensures
        spec_extract_emulator(emulator_token(e)) == Some(e),
{
    reveal_strlit("qemu-system-x86_64");
    reveal_strlit("qemu-system-i386");
    reveal_strlit("qemu-system-ppc");
    reveal_strlit("qemu-system-m68k");
    reveal_strlit("qemu-system-arm");
    reveal_strlit("qemu-system-aarch64");
    match e {
        QemuEmulator::X86_64 => {
            let s = "qemu-system-x86_64"@;
            assert(crate::text::match_at(s, "qemu-system-x86_64"@, 0)) by {
                assert(s.subrange(0, 18) =~= s);
            }
            crate::text::lemma_spec_find_exists(s, "qemu-system-x86_64"@, 0, 0);
        },
        QemuEmulator::I386 => {
            let s = "qemu-system-i386"@;
            assert(crate::text::match_at(s, "qemu-system-i386"@, 0)) by {
                assert(s.subrange(0, 16) =~= s);
            }
            crate::text::lemma_spec_find_exists(s, "qemu-system-i386"@, 0, 0);
            assert(!spec_contains(s, "qemu-system-x86_64"@)) by {
                crate::text::lemma_spec_find_first(s, "qemu-system-x86_64"@, 0);
                if spec_find(s, "qemu-system-x86_64"@, 0) is Some {
                    let j = spec_find(s, "qemu-system-x86_64"@, 0)->Some_0;
                    assert(crate::text::match_at(s, "qemu-system-x86_64"@, j));
                }
            }
        },
        QemuEmulator::Ppc => {
            let s = "qemu-system-ppc"@;
            assert(crate::text::match_at(s, "qemu-system-ppc"@, 0)) by {
                assert(s.subrange(0, 15) =~= s);
            }
            crate::text::lemma_spec_find_exists(s, "qemu-system-ppc"@, 0, 0);
            assert(!spec_contains(s, "qemu-system-x86_64"@)) by {
                crate::text::lemma_spec_find_first(s, "qemu-system-x86_64"@, 0);
                if spec_find(s, "qemu-system-x86_64"@, 0) is Some {
                    let j = spec_find(s, "qemu-system-x86_64"@, 0)->Some_0;
                    assert(crate::text::match_at(s, "qemu-system-x86_64"@, j));
                }
            }
            assert(!spec_contains(s, "qemu-system-i386"@)) by {
                crate::text::lemma_spec_find_first(s, "qemu-system-i386"@, 0);
                if spec_find(s, "qemu-system-i386"@, 0) is Some {
                    let j = spec_find(s, "qemu-system-i386"@, 0)->Some_0;
                    assert(crate::text::match_at(s, "qemu-system-i386"@, j));
                }
            }
        },
        QemuEmulator::M68k => {
            let s = "qemu-system-m68k"@;
            assert(crate::text::match_at(s, "qemu-system-m68k"@, 0)) by {
                assert(s.subrange(0, 16) =~= s);
            }
            crate::text::lemma_spec_find_exists(s, "qemu-system-m68k"@, 0, 0);
            assert(!spec_contains(s, "qemu-system-x86_64"@)) by {
                crate::text::lemma_spec_find_first(s, "qemu-system-x86_64"@, 0);
                if spec_find(s, "qemu-system-x86_64"@, 0) is Some {
                    let j = spec_find(s, "qemu-system-x86_64"@, 0)->Some_0;
                    assert(crate::text::match_at(s, "qemu-system-x86_64"@, j));
                }
            }
            assert(!spec_contains(s, "qemu-system-i386"@)) by {
                crate::text::lemma_spec_find_first(s, "qemu-system-i386"@, 0);
                if spec_find(s, "qemu-system-i386"@, 0) is Some {
                    let j = spec_find(s, "qemu-system-i386"@, 0)->Some_0;
                    assert(crate::text::match_at(s, "qemu-system-i386"@, j));
                    if j == 0 {
                        assert(s.subrange(j, j + 16)[12] == s[j + 12]);
                        assert(false);
                    }
                }
            }
            assert(!spec_contains(s, "qemu-system-ppc"@)) by {
                crate::text::lemma_spec_find_first(s, "qemu-system-ppc"@, 0);
                if spec_find(s, "qemu-system-ppc"@, 0) is Some {
                    let j = spec_find(s, "qemu-system-ppc"@, 0)->Some_0;
                    assert(crate::text::match_at(s, "qemu-system-ppc"@, j));
                    if j == 0 {
                        assert(s.subrange(j, j + 15)[12] == s[j + 12]);
                        assert(false);
                    }
                    if j == 1 {
                        assert(s.subrange(j, j + 15)[0] == s[j + 0]);
                        assert(false);
                    }
                }
            }
        },
        QemuEmulator::Arm => {
            let s = "qemu-system-arm"@;
            assert(crate::text::match_at(s, "qemu-system-arm"@, 0)) by {
                assert(s.subrange(0, 15) =~= s);
            }
            crate::text::lemma_spec_find_exists(s, "qemu-system-arm"@, 0, 0);
            assert(!spec_contains(s, "qemu-system-x86_64"@)) by {
                crate::text::lemma_spec_find_first(s, "qemu-system-x86_64"@, 0);
                if spec_find(s, "qemu-system-x86_64"@, 0) is Some {
                    let j = spec_find(s, "qemu-system-x86_64"@, 0)->Some_0;
                    assert(crate::text::match_at(s, "qemu-system-x86_64"@, j));
                }
            }
            assert(!spec_contains(s, "qemu-system-i386"@)) by {
                crate::text::lemma_spec_find_first(s, "qemu-system-i386"@, 0);
                if spec_find(s, "qemu-system-i386"@, 0) is Some {
                    let j = spec_find(s, "qemu-system-i386"@, 0)->Some_0;
                    assert(crate::text::match_at(s, "qemu-system-i386"@, j));
                }
            }
            assert(!spec_contains(s, "qemu-system-ppc"@)) by {
                crate::text::lemma_spec_find_first(s, "qemu-system-ppc"@, 0);
                if spec_find(s, "qemu-system-ppc"@, 0) is Some {
                    let j = spec_find(s, "qemu-system-ppc"@, 0)->Some_0;
                    assert(crate::text::match_at(s, "qemu-system-ppc"@, j));
                    if j == 0 {
                        assert(s.subrange(j, j + 15)[12] == s[j + 12]);
                        assert(false);
                    }
                }
            }
            assert(!spec_contains(s, "qemu-system-m68k"@)) by {
                crate::text::lemma_spec_find_first(s, "qemu-system-m68k"@, 0);
                if spec_find(s, "qemu-system-m68k"@, 0) is Some {
                    let j = spec_find(s, "qemu-system-m68k"@, 0)->Some_0;
                    assert(crate::text::match_at(s, "qemu-system-m68k"@, j));
                }
            }
        },
        QemuEmulator::Aarch64 => {
            let s = "qemu-system-aarch64"@;
            assert(crate::text::match_at(s, "qemu-system-aarch64"@, 0)) by {
                assert(s.subrange(0, 19) =~= s);
            }
            crate::text::lemma_spec_find_exists(s, "qemu-system-aarch64"@, 0, 0);
            assert(!spec_contains(s, "qemu-system-x86_64"@)) by {
                crate::text::lemma_spec_find_first(s, "qemu-system-x86_64"@, 0);
                if spec_find(s, "qemu-system-x86_64"@, 0) is Some {
                    let j = spec_find(s, "qemu-system-x86_64"@, 0)->Some_0;
                    assert(crate::text::match_at(s, "qemu-system-x86_64"@, j));
                    if j == 0 {
                        assert(s.subrange(j, j + 18)[12] == s[j + 12]);
                        assert(false);
                    }
                    if j == 1 {
                        assert(s.subrange(j, j + 18)[0] == s[j + 0]);
                        assert(false);
                    }
                }
            }
            assert(!spec_contains(s, "qemu-system-i386"@)) by {
                crate::text::lemma_spec_find_first(s, "qemu-system-i386"@, 0);
                if spec_find(s, "qemu-system-i386"@, 0) is Some {
                    let j = spec_find(s, "qemu-system-i386"@, 0)->Some_0;
                    assert(crate::text::match_at(s, "qemu-system-i386"@, j));
                    if j == 0 {
                        assert(s.subrange(j, j + 16)[12] == s[j + 12]);
                        assert(false);
                    }
                    if j == 1 {
                        assert(s.subrange(j, j + 16)[0] == s[j + 0]);
                        assert(false);
                    }
                    if j == 2 {
                        assert(s.subrange(j, j + 16)[0] == s[j + 0]);
                        assert(false);
                    }
                    if j == 3 {
                        assert(s.subrange(j, j + 16)[0] == s[j + 0]);
                        assert(false);
                    }
                }
            }
            assert(!spec_contains(s, "qemu-system-ppc"@)) by {
                crate::text::lemma_spec_find_first(s, "qemu-system-ppc"@, 0);
                if spec_find(s, "qemu-system-ppc"@, 0) is Some {
                    let j = spec_find(s, "qemu-system-ppc"@, 0)->Some_0;
                    assert(crate::text::match_at(s, "qemu-system-ppc"@, j));
                    if j == 0 {
                        assert(s.subrange(j, j + 15)[12] == s[j + 12]);
                        assert(false);
                    }
                    if j == 1 {
                        assert(s.subrange(j, j + 15)[0] == s[j + 0]);
                        assert(false);
                    }
                    if j == 2 {
                        assert(s.subrange(j, j + 15)[0] == s[j + 0]);
                        assert(false);
                    }
                    if j == 3 {
                        assert(s.subrange(j, j + 15)[0] == s[j + 0]);
                        assert(false);
                    }
                    if j == 4 {
                        assert(s.subrange(j, j + 15)[0] == s[j + 0]);
                        assert(false);
                    }
                }
            }
            assert(!spec_contains(s, "qemu-system-m68k"@)) by {
                crate::text::lemma_spec_find_first(s, "qemu-system-m68k"@, 0);
                if spec_find(s, "qemu-system-m68k"@, 0) is Some {
                    let j = spec_find(s, "qemu-system-m68k"@, 0)->Some_0;
                    assert(crate::text::match_at(s, "qemu-system-m68k"@, j));
                    if j == 0 {
                        assert(s.subrange(j, j + 16)[12] == s[j + 12]);
                        assert(false);
                    }
                    if j == 1 {
                        assert(s.subrange(j, j + 16)[0] == s[j + 0]);
                        assert(false);
                    }
                    if j == 2 {
                        assert(s.subrange(j, j + 16)[0] == s[j + 0]);
                        assert(false);
                    }
                    if j == 3 {
                        assert(s.subrange(j, j + 16)[0] == s[j + 0]);
                        assert(false);
                    }
                }
            }
            assert(!spec_contains(s, "qemu-system-arm"@)) by {
                crate::text::lemma_spec_find_first(s, "qemu-system-arm"@, 0);
                if spec_find(s, "qemu-system-arm"@, 0) is Some {
                    let j = spec_find(s, "qemu-system-arm"@, 0)->Some_0;
                    assert(crate::text::match_at(s, "qemu-system-arm"@, j));
                    if j == 0 {
                        assert(s.subrange(j, j + 15)[13] == s[j + 13]);
                        assert(false);
                    }
                    if j == 1 {
                        assert(s.subrange(j, j + 15)[0] == s[j + 0]);
                        assert(false);
                    }
                    if j == 2 {
                        assert(s.subrange(j, j + 15)[0] == s[j + 0]);
                        assert(false);
                    }
                    if j == 3 {
                        assert(s.subrange(j, j + 15)[0] == s[j + 0]);
                        assert(false);
                    }
                    if j == 4 {
                        assert(s.subrange(j, j + 15)[0] == s[j + 0]);
                        assert(false);
                    }
                }
            }
        },
        QemuEmulator::Unknown => {},
    }
}

/// Extracting the audio devices from a script that consists of one audio
/// family's canonical token yields exactly that family.
pub proof fn lemma_extract_audio_round_trip(a: AudioDevice)
    ensures
        spec_extract_audio(audio_token(a)) == seq![a],
{
    reveal_strlit("sb16");
    reveal_strlit("SB16");
    reveal_strlit("ac97");
    reveal_strlit("AC97");
    reveal_strlit("intel-hda");
    reveal_strlit("hda-duplex");
    reveal_strlit("es1370");
    match a {
        AudioDevice::Sb16 => {
            let s = "sb16"@;
            assert(crate::text::match_at(s, "sb16"@, 0)) by {
                assert(s.subrange(0, 4) =~= s);
            }
            crate::text::lemma_spec_find_exists(s, "sb16"@, 0, 0);
            assert(!spec_contains(s, "SB16"@)) by {
                crate::text::lemma_spec_find_first(s, "SB16"@, 0);
                if spec_find(s, "SB16"@, 0) is Some {
                    let j = spec_find(s, "SB16"@, 0)->Some_0;
                    assert(crate::text::match_at(s, "SB16"@, j));
                    if j == 0 {
                        assert(s.subrange(j, j + 4)[0] == s[j + 0]);
                        assert(false);
                    }
                }
            }
            assert(!spec_contains(s, "ac97"@)) by {
                crate::text::lemma_spec_find_first(s, "ac97"@, 0);
                if spec_find(s, "ac97"@, 0) is Some {
                    let j = spec_find(s, "ac97"@, 0)->Some_0;
                    assert(crate::text::match_at(s, "ac97"@, j));
                    if j == 0 {
                        assert(s.subrange(j, j + 4)[0] == s[j + 0]);
                        assert(false);
                    }
                }
            }
            assert(!spec_contains(s, "AC97"@)) by {
                crate::text::lemma_spec_find_first(s, "AC97"@, 0);
                if spec_find(s, "AC97"@, 0) is Some {
                    let j = spec_find(s, "AC97"@, 0)->Some_0;
                    assert(crate::text::match_at(s, "AC97"@, j));
                    if j == 0 {
                        assert(s.subrange(j, j + 4)[0] == s[j + 0]);
                        assert(false);
                    }
                }
            }
            assert(!spec_contains(s, "intel-hda"@)) by {
                crate::text::lemma_spec_find_first(s, "intel-hda"@, 0);
                if spec_find(s, "intel-hda"@, 0) is Some {
                    let j = spec_find(s, "intel-hda"@, 0)->Some_0;
                    assert(crate::text::match_at(s, "intel-hda"@, j));
                }
            }
            assert(!spec_contains(s, "hda-duplex"@)) by {
                crate::text::lemma_spec_find_first(s, "hda-duplex"@, 0);
                if spec_find(s, "hda-duplex"@, 0) is Some {
                    let j = spec_find(s, "hda-duplex"@, 0)->Some_0;
                    assert(crate::text::match_at(s, "hda-duplex"@, j));
                }
            }
            assert(!spec_contains(s, "es1370"@)) by {
                crate::text::lemma_spec_find_first(s, "es1370"@, 0);
                if spec_find(s, "es1370"@, 0) is Some {
                    let j = spec_find(s, "es1370"@, 0)->Some_0;
                    assert(crate::text::match_at(s, "es1370"@, j));
                }
            }
            assert(spec_extract_audio(s) =~= seq![a]);
        },
        AudioDevice::Ac97 => {
            let s = "ac97"@;
            assert(crate::text::match_at(s, "ac97"@, 0)) by {
                assert(s.subrange(0, 4) =~= s);
            }
            crate::text::lemma_spec_find_exists(s, "ac97"@, 0, 0);
            assert(!spec_contains(s, "sb16"@)) by {
                crate::text::lemma_spec_find_first(s, "sb16"@, 0);
                if spec_find(s, "sb16"@, 0) is Some {
                    let j = spec_find(s, "sb16"@, 0)->Some_0;
                    assert(crate::text::match_at(s, "sb16"@, j));
                    if j == 0 {
                        assert(s.subrange(j, j + 4)[0] == s[j + 0]);
                        assert(false);
                    }
                }
            }
            assert(!spec_contains(s, "SB16"@)) by {
                crate::text::lemma_spec_find_first(s, "SB16"@, 0);
                if spec_find(s, "SB16"@, 0) is Some {
                    let j = spec_find(s, "SB16"@, 0)->Some_0;
                    assert(crate::text::match_at(s, "SB16"@, j));
                    if j == 0 {
                        assert(s.subrange(j, j + 4)[0] == s[j + 0]);
                        assert(false);
                    }
                }
            }
            assert(!spec_contains(s, "AC97"@)) by {
                crate::text::lemma_spec_find_first(s, "AC97"@, 0);
                if spec_find(s, "AC97"@, 0) is Some {
                    let j = spec_find(s, "AC97"@, 0)->Some_0;
                    assert(crate::text::match_at(s, "AC97"@, j));
                    if j == 0 {
                        assert(s.subrange(j, j + 4)[0] == s[j + 0]);
                        assert(false);
                    }
                }
            }
            assert(!spec_contains(s, "intel-hda"@)) by {
                crate::text::lemma_spec_find_first(s, "intel-hda"@, 0);
                if spec_find(s, "intel-hda"@, 0) is Some {
                    let j = spec_find(s, "intel-hda"@, 0)->Some_0;
                    assert(crate::text::match_at(s, "intel-hda"@, j));
                }
            }
            assert(!spec_contains(s, "hda-duplex"@)) by {
                crate::text::lemma_spec_find_first(s, "hda-duplex"@, 0);
                if spec_find(s, "hda-duplex"@, 0) is Some {
                    let j = spec_find(s, "hda-duplex"@, 0)->Some_0;
                    assert(crate::text::match_at(s, "hda-duplex"@, j));
                }
            }
            assert(!spec_contains(s, "es1370"@)) by {
                crate::text::lemma_spec_find_first(s, "es1370"@, 0);
                if spec_find(s, "es1370"@, 0) is Some {
                    let j = spec_find(s, "es1370"@, 0)->Some_0;
                    assert(crate::text::match_at(s, "es1370"@, j));
                }
            }
            assert(spec_extract_audio(s) =~= seq![a]);
        },
        AudioDevice::Hda => {
            let s = "intel-hda"@;
            assert(crate::text::match_at(s, "intel-hda"@, 0)) by {
                assert(s.subrange(0, 9) =~= s);
            }
            crate::text::lemma_spec_find_exists(s, "intel-hda"@, 0, 0);
            assert(!spec_contains(s, "sb16"@)) by {
                crate::text::lemma_spec_find_first(s, "sb16"@, 0);
                if spec_find(s, "sb16"@, 0) is Some {
                    let j = spec_find(s, "sb16"@, 0)->Some_0;
                    assert(crate::text::match_at(s, "sb16"@, j));
                    if j == 0 {
                        assert(s.subrange(j, j + 4)[0] == s[j + 0]);
                        assert(false);
                    }
                    if j == 1 {
                        assert(s.subrange(j, j + 4)[0] == s[j + 0]);
                        assert(false);
                    }
                    if j == 2 {
                        assert(s.subrange(j, j + 4)[0] == s[j + 0]);
                        assert(false);
                    }
                    if j == 3 {
                        assert(s.subrange(j, j + 4)[0] == s[j + 0]);
                        assert(false);
                    }
                    if j == 4 {
                        assert(s.subrange(j, j + 4)[0] == s[j + 0]);
                        assert(false);
                    }
                    if j == 5 {
                        assert(s.subrange(j, j + 4)[0] == s[j + 0]);
                        assert(false);
                    }
                }
            }
            assert(!spec_contains(s, "SB16"@)) by {
                crate::text::lemma_spec_find_first(s, "SB16"@, 0);
                if spec_find(s, "SB16"@, 0) is Some {
                    let j = spec_find(s, "SB16"@, 0)->Some_0;
                    assert(crate::text::match_at(s, "SB16"@, j));
                    if j == 0 {
                        assert(s.subrange(j, j + 4)[0] == s[j + 0]);
                        assert(false);
                    }
                    if j == 1 {
                        assert(s.subrange(j, j + 4)[0] == s[j + 0]);
                        assert(false);
                    }
                    if j == 2 {
                        assert(s.subrange(j, j + 4)[0] == s[j + 0]);
                        assert(false);
                    }
                    if j == 3 {
                        assert(s.subrange(j, j + 4)[0] == s[j + 0]);
                        assert(false);
                    }
                    if j == 4 {
                        assert(s.subrange(j, j + 4)[0] == s[j + 0]);
                        assert(false);
                    }
                    if j == 5 {
                        assert(s.subrange(j, j + 4)[0] == s[j + 0]);
                        assert(false);
                    }
                }
            }
            assert(!spec_contains(s, "ac97"@)) by {
                crate::text::lemma_spec_find_first(s, "ac97"@, 0);
                if spec_find(s, "ac97"@, 0) is Some {
                    let j = spec_find(s, "ac97"@, 0)->Some_0;
                    assert(crate::text::match_at(s, "ac97"@, j));
                    if j == 0 {
                        assert(s.subrange(j, j + 4)[0] == s[j + 0]);
                        assert(false);
                    }
                    if j == 1 {
                        assert(s.subrange(j, j + 4)[0] == s[j + 0]);
                        assert(false);
                    }
                    if j == 2 {
                        assert(s.subrange(j, j + 4)[0] == s[j + 0]);
                        assert(false);
                    }
                    if j == 3 {
                        assert(s.subrange(j, j + 4)[0] == s[j + 0]);
                        assert(false);
                    }
                    if j == 4 {
                        assert(s.subrange(j, j + 4)[0] == s[j + 0]);
                        assert(false);
                    }
                    if j == 5 {
                        assert(s.subrange(j, j + 4)[0] == s[j + 0]);
                        assert(false);
                    }
                }
            }
            assert(!spec_contains(s, "AC97"@)) by {
                crate::text::lemma_spec_find_first(s, "AC97"@, 0);
                if spec_find(s, "AC97"@, 0) is Some {
                    let j = spec_find(s, "AC97"@, 0)->Some_0;
                    assert(crate::text::match_at(s, "AC97"@, j));
                    if j == 0 {
                        assert(s.subrange(j, j + 4)[0] == s[j + 0]);
                        assert(false);
                    }
                    if j == 1 {
                        assert(s.subrange(j, j + 4)[0] == s[j + 0]);
                        assert(false);
                    }
                    if j == 2 {
                        assert(s.subrange(j, j + 4)[0] == s[j + 0]);
                        assert(false);
                    }
                    if j == 3 {
                        assert(s.subrange(j, j + 4)[0] == s[j + 0]);
                        assert(false);
                    }
                    if j == 4 {
                        assert(s.subrange(j, j + 4)[0] == s[j + 0]);
                        assert(false);
                    }
                    if j == 5 {
                        assert(s.subrange(j, j + 4)[0] == s[j + 0]);
                        assert(false);
                    }
                }
            }
            assert(!spec_contains(s, "hda-duplex"@)) by {
                crate::text::lemma_spec_find_first(s, "hda-duplex"@, 0);
                if spec_find(s, "hda-duplex"@, 0) is Some {
                    let j = spec_find(s, "hda-duplex"@, 0)->Some_0;
                    assert(crate::text::match_at(s, "hda-duplex"@, j));
                }
            }
            assert(!spec_contains(s, "es1370"@)) by {
                crate::text::lemma_spec_find_first(s, "es1370"@, 0);
                if spec_find(s, "es1370"@, 0) is Some {
                    let j = spec_find(s, "es1370"@, 0)->Some_0;
                    assert(crate::text::match_at(s, "es1370"@, j));
                    if j == 0 {
                        assert(s.subrange(j, j + 6)[0] == s[j + 0]);
                        assert(false);
                    }
                    if j == 1 {
                        assert(s.subrange(j, j + 6)[0] == s[j + 0]);
                        assert(false);
                    }
                    if j == 2 {
                        assert(s.subrange(j, j + 6)[0] == s[j + 0]);
                        assert(false);
                    }
                    if j == 3 {
                        assert(s.subrange(j, j + 6)[1] == s[j + 1]);
                        assert(false);
                    }
                }
            }
            assert(spec_extract_audio(s) =~= seq![a]);
        },
        AudioDevice::Es1370 => {
            let s = "es1370"@;
            assert(crate::text::match_at(s, "es1370"@, 0)) by {
                assert(s.subrange(0, 6) =~= s);
            }
            crate::text::lemma_spec_find_exists(s, "es1370"@, 0, 0);
            assert(!spec_contains(s, "sb16"@)) by {
                crate::text::lemma_spec_find_first(s, "sb16"@, 0);
                if spec_find(s, "sb16"@, 0) is Some {
                    let j = spec_find(s, "sb16"@, 0)->Some_0;
                    assert(crate::text::match_at(s, "sb16"@, j));
                    if j == 0 {
                        assert(s.subrange(j, j + 4)[0] == s[j + 0]);
                        assert(false);
                    }
                    if j == 1 {
                        assert(s.subrange(j, j + 4)[1] == s[j + 1]);
                        assert(false);
                    }
                    if j == 2 {
                        assert(s.subrange(j, j + 4)[0] == s[j + 0]);
                        assert(false);
                    }
                }
            }
            assert(!spec_contains(s, "SB16"@)) by {
                crate::text::lemma_spec_find_first(s, "SB16"@, 0);
                if spec_find(s, "SB16"@, 0) is Some {
                    let j = spec_find(s, "SB16"@, 0)->Some_0;
                    assert(crate::text::match_at(s, "SB16"@, j));
                    if j == 0 {
                        assert(s.subrange(j, j + 4)[0] == s[j + 0]);
                        assert(false);
                    }
                    if j == 1 {
                        assert(s.subrange(j, j + 4)[0] == s[j + 0]);
                        assert(false);
                    }
                    if j == 2 {
                        assert(s.subrange(j, j + 4)[0] == s[j + 0]);
                        assert(false);
                    }
                }
            }
            assert(!spec_contains(s, "ac97"@)) by {
                crate::text::lemma_spec_find_first(s, "ac97"@, 0);
                if spec_find(s, "ac97"@, 0) is Some {
                    let j = spec_find(s, "ac97"@, 0)->Some_0;
                    assert(crate::text::match_at(s, "ac97"@, j));
                    if j == 0 {
                        assert(s.subrange(j, j + 4)[0] == s[j + 0]);
                        assert(false);
                    }
                    if j == 1 {
                        assert(s.subrange(j, j + 4)[0] == s[j + 0]);
                        assert(false);
                    }
                    if j == 2 {
                        assert(s.subrange(j, j + 4)[0] == s[j + 0]);
                        assert(false);
                    }
                }
            }
            assert(!spec_contains(s, "AC97"@)) by {
                crate::text::lemma_spec_find_first(s, "AC97"@, 0);
                if spec_find(s, "AC97"@, 0) is Some {
                    let j = spec_find(s, "AC97"@, 0)->Some_0;
                    assert(crate::text::match_at(s, "AC97"@, j));
                    if j == 0 {
                        assert(s.subrange(j, j + 4)[0] == s[j + 0]);
                        assert(false);
                    }
                    if j == 1 {
                        assert(s.subrange(j, j + 4)[0] == s[j + 0]);
                        assert(false);
                    }
                    if j == 2 {
                        assert(s.subrange(j, j + 4)[0] == s[j + 0]);
                        assert(false);
                    }
                }
            }
            assert(!spec_contains(s, "intel-hda"@)) by {
                crate::text::lemma_spec_find_first(s, "intel-hda"@, 0);
                if spec_find(s, "intel-hda"@, 0) is Some {
                    let j = spec_find(s, "intel-hda"@, 0)->Some_0;
                    assert(crate::text::match_at(s, "intel-hda"@, j));
                }
            }
            assert(!spec_contains(s, "hda-duplex"@)) by {
                crate::text::lemma_spec_find_first(s, "hda-duplex"@, 0);
                if spec_find(s, "hda-duplex"@, 0) is Some {
                    let j = spec_find(s, "hda-duplex"@, 0)->Some_0;
                    assert(crate::text::match_at(s, "hda-duplex"@, j));
                }
            }
            assert(spec_extract_audio(s) =~= seq![a]);
        },
    }
}

/// Memory size in megabytes stated by one line, if any: the digits after the
/// memory flag, read as gigabytes when the token carries the size suffix
/// right after the digits or when the number is under 64 (small numbers are
/// almost always meant as gigabytes; a genuine sub-64-megabyte request is
/// misread, a documented edge case). A value that cannot fit is ignored.
pub open spec fn spec_line_memory(l: Seq<char>) -> Option<u32> {
    if spec_is_comment_line(l) {
        None
    } else {
        match spec_find(l, "-m "@, 0) {
            None => None,
            Some(i) => {
                let start = i + 3;
                let end = spec_digits_end(l, start);
                if end == start {
                    None
                } else {
                    let v = spec_digits_val(l.subrange(start, end));
                    if v > u32::MAX {
                        None
                    } else if end < l.len() && l[end] == 'G' {
                        if v * 1024 <= u32::MAX {
                            Some((v * 1024) as u32)
                        } else {
                            None
                        }
                    } else if v < 64 {
                        Some((v * 1024) as u32)
                    } else {
                        Some(v as u32)
                    }
                }
            },
        }
    }
}

/// First line that states a memory size decides.
pub open spec fn spec_memory_lines(ls: Seq<Seq<char>>) -> Option<u32>
    decreases ls.len(),
{
    if ls.len() == 0 {
        None
    } else {
        match spec_line_memory(ls[0]) {
            Some(v) => Some(v),
            None => spec_memory_lines(ls.drop_first()),
        }
    }
}

pub open spec fn spec_extract_memory(s: Seq<char>) -> Option<u32> {
    spec_memory_lines(spec_split_lines(s))
}

/// Memory size in megabytes stated by one line.
fn line_memory(l: &str) -> (r: Option<u32>)
    ensures
        r == spec_line_memory(l@),
{
    if is_comment_line(l) {
        return None;
    }
    match find_from(l, 0, "-m ") {
        None => None,
        Some(i) => {
            proof {
                reveal_strlit("-m ");
                lemma_spec_find_first(l@, "-m "@, 0);
            }
            let n = l.unicode_len();
            let start = i + 3;
            let end = digits_end(l, start);
            proof {
                lemma_spec_digits_end(l@, start as int);
            }
            match parse_u32(l, start, end) {
                None => None,
                Some(v) => {
                    let has_g = end < n && l.get_char(end) == 'G';
                    if has_g {
                        if v <= u32::MAX / 1024 {
                            Some(v * 1024)
                        } else {
                            None
                        }
                    } else if v < 64 {
                        Some(v * 1024)
                    } else {
                        Some(v)
                    }
                },
            }
        },
    }
}

/// Memory size in megabytes, from the first non-comment line that carries
/// the memory flag; see `spec_line_memory` for the unit heuristic.
pub fn extract_memory(content: &str) -> (r: Option<u32>)
    ensures
        r == spec_extract_memory(content@),
{
    let ghost ls = spec_split_lines(content@);
    let lines = split_lines(content);
    let mut k: usize = 0;
    proof {
        assert(ls.skip(0) =~= ls);
    }
    while k < lines.len()
        invariant
            0 <= k <= lines.len(),
            lines@.len() == ls.len(),
            ls == spec_split_lines(content@),
            forall|j: int|
                0 <= j < lines@.len() ==> {
                    &&& 0 <= #[trigger] lines@[j].0 <= lines@[j].1 <= content@.len()
                    &&& content@.subrange(lines@[j].0 as int, lines@[j].1 as int) == ls[j]
                },
            spec_memory_lines(ls) == spec_memory_lines(ls.skip(k as int)),
        decreases lines.len() - k,
    {
        let (a, b) = lines[k];
        let line = content.substring_char(a, b);
        let r = line_memory(line);
        proof {
            assert(ls.skip(k as int)[0] == ls[k as int]);
            assert(ls.skip(k as int).drop_first() =~= ls.skip(k as int + 1));
        }
        if let Some(v) = r {
            return Some(v);
        }
        k += 1;
    }
    None
}

/// Core count stated by one line: the digits after the SMP flag.
pub open spec fn spec_line_cores(l: Seq<char>) -> Option<u32> {
    if spec_is_comment_line(l) {
        None
    } else {
        match spec_find(l, "-smp "@, 0) {
            None => None,
            Some(i) => {
                let start = i + 5;
                let end = spec_digits_end(l, start);
                if end == start {
                    None
                } else {
                    let v = spec_digits_val(l.subrange(start, end));
                    if v > u32::MAX {
                        None
                    } else {
                        Some(v as u32)
                    }
                }
            },
        }
    }
}

pub open spec fn spec_cores_lines(ls: Seq<Seq<char>>) -> Option<u32>
    decreases ls.len(),
{
    if ls.len() == 0 {
        None
    } else {
        match spec_line_cores(ls[0]) {
            Some(v) => Some(v),
            None => spec_cores_lines(ls.drop_first()),
        }
    }
}

pub open spec fn spec_extract_cpu_cores(s: Seq<char>) -> Option<u32> {
    spec_cores_lines(spec_split_lines(s))
}

fn line_cores(l: &str) -> (r: Option<u32>)
    ensures
        r == spec_line_cores(l@),
{
    if is_comment_line(l) {
        return None;
    }
    match find_from(l, 0, "-smp ") {
        None => None,
        Some(i) => {
            proof {
                reveal_strlit("-smp ");
                lemma_spec_find_first(l@, "-smp "@, 0);
            }
            let n = l.unicode_len();
            let start = i + 5;
            let end = digits_end(l, start);
            proof {
                lemma_spec_digits_end(l@, start as int);
            }
            parse_u32(l, start, end)
        },
    }
}

/// CPU core count, from the first non-comment line that carries the SMP
/// flag.
pub fn extract_cpu_cores(content: &str) -> (r: Option<u32>)
    ensures
        r == spec_extract_cpu_cores(content@),
{
    let ghost ls = spec_split_lines(content@);
    let lines = split_lines(content);
    let mut k: usize = 0;
    proof {
        assert(ls.skip(0) =~= ls);
    }
    while k < lines.len()
        invariant
            0 <= k <= lines.len(),
            lines@.len() == ls.len(),
            ls == spec_split_lines(content@),
            forall|j: int|
                0 <= j < lines@.len() ==> {
                    &&& 0 <= #[trigger] lines@[j].0 <= lines@[j].1 <= content@.len()
                    &&& content@.subrange(lines@[j].0 as int, lines@[j].1 as int) == ls[j]
                },
            spec_cores_lines(ls) == spec_cores_lines(ls.skip(k as int)),
        decreases lines.len() - k,
    {
        let (a, b) = lines[k];
        let line = content.substring_char(a, b);
        let r = line_cores(line);
        proof {
            assert(ls.skip(k as int)[0] == ls[k as int]);
            assert(ls.skip(k as int).drop_first() =~= ls.skip(k as int + 1));
        }
        if let Some(v) = r {
            return Some(v);
        }
        k += 1;
    }
    None
}

/// CPU model token stated by one line: the token after the CPU flag, up to
/// the next whitespace or line-continuation marker.
pub open spec fn spec_line_cpu_model(l: Seq<char>) -> Option<Seq<char>> {
    if spec_is_comment_line(l) {
        None
    } else {
        match spec_find(l, "-cpu "@, 0) {
            None => None,
            Some(i) => {
                let start = i + 5;
                let end = spec_token_end(l, start);
                if end == start {
                    None
                } else {
                    Some(l.subrange(start, end))
                }
            },
        }
    }
}

pub open spec fn spec_model_lines(ls: Seq<Seq<char>>) -> Option<Seq<char>>
    decreases ls.len(),
{
    if ls.len() == 0 {
        None
    } else {
        match spec_line_cpu_model(ls[0]) {
            Some(v) => Some(v),
            None => spec_model_lines(ls.drop_first()),
        }
    }
}

pub open spec fn spec_extract_cpu_model(s: Seq<char>) -> Option<Seq<char>> {
    spec_model_lines(spec_split_lines(s))
}

fn line_cpu_model(l: &str) -> (r: Option<String>)
    ensures
        match r {
            Some(m) => spec_line_cpu_model(l@) == Some(m@),
            None => spec_line_cpu_model(l@) is None,
        },
{
    if is_comment_line(l) {
        return None;
    }
    match find_from(l, 0, "-cpu ") {
        None => None,
        Some(i) => {
            proof {
                reveal_strlit("-cpu ");
                lemma_spec_find_first(l@, "-cpu "@, 0);
            }
            let n = l.unicode_len();
            let start = i + 5;
            let end = token_end(l, start);
            if end == start {
                None
            } else {
                Some(String::from_str(l.substring_char(start, end)))
            }
        },
    }
}

/// CPU model, from the first non-comment line that carries the CPU flag.
pub fn extract_cpu_model(content: &str) -> (r: Option<String>)
    ensures
        match r {
            Some(m) => spec_extract_cpu_model(content@) == Some(m@),
            None => spec_extract_cpu_model(content@) is None,
        },
{
    let ghost ls = spec_split_lines(content@);
    let lines = split_lines(content);
    let mut k: usize = 0;
    proof {
        assert(ls.skip(0) =~= ls);
    }
    while k < lines.len()
        invariant
            0 <= k <= lines.len(),
            lines@.len() == ls.len(),
            ls == spec_split_lines(content@),
            forall|j: int|
                0 <= j < lines@.len() ==> {
                    &&& 0 <= #[trigger] lines@[j].0 <= lines@[j].1 <= content@.len()
                    &&& content@.subrange(lines@[j].0 as int, lines@[j].1 as int) == ls[j]
                },
            spec_model_lines(ls) == spec_model_lines(ls.skip(k as int)),
        decreases lines.len() - k,
    {
        let (a, b) = lines[k];
        let line = content.substring_char(a, b);
        let r = line_cpu_model(line);
        proof {
            assert(ls.skip(k as int)[0] == ls[k as int]);
            assert(ls.skip(k as int).drop_first() =~= ls.skip(k as int + 1));
        }
        if let Some(m) = r {
            return Some(m);
        }
        k += 1;
    }
    None
}

/// Machine type stated by one line: the token after the short flag, or,
/// failing that, the attribute token after the long flag.
pub open spec fn spec_line_machine(l: Seq<char>) -> Option<Seq<char>> {
    if spec_is_comment_line(l) {
        None
    } else {
        let short = match spec_find(l, "-M "@, 0) {
            None => None,
            Some(i) => {
                let start = i + 3;
                let end = spec_token_end(l, start);
                if end == start {
                    None
                } else {
                    Some(l.subrange(start, end))
                }
            },
        };
        match short {
            Some(m) => Some(m),
            None => match spec_find(l, "-machine "@, 0) {
                None => None,
                Some(i) => {
                    let start = i + 9;
                    let end = spec_attr_end(l, start);
                    if end == start {
                        None
                    } else {
                        Some(l.subrange(start, end))
                    }
                },
            },
        }
    }
}

pub open spec fn spec_machine_lines(ls: Seq<Seq<char>>) -> Option<Seq<char>>
    decreases ls.len(),
{
    if ls.len() == 0 {
        None
    } else {
        match spec_line_machine(ls[0]) {
            Some(v) => Some(v),
            None => spec_machine_lines(ls.drop_first()),
        }
    }
}

pub open spec fn spec_extract_machine(s: Seq<char>) -> Option<Seq<char>> {
    spec_machine_lines(spec_split_lines(s))
}

fn line_machine(l: &str) -> (r: Option<String>)
    ensures
        match r {
            Some(m) => spec_line_machine(l@) == Some(m@),
            None => spec_line_machine(l@) is None,
        },
{
    if is_comment_line(l) {
        return None;
    }
    let short = match find_from(l, 0, "-M ") {
        None => None,
        Some(i) => {
            proof {
                reveal_strlit("-M ");
                lemma_spec_find_first(l@, "-M "@, 0);
            }
            let n = l.unicode_len();
            let start = i + 3;
            let end = token_end(l, start);
            if end == start {
                None
            } else {
                Some(String::from_str(l.substring_char(start, end)))
            }
        },
    };
    if let Some(m) = short {
        return Some(m);
    }
    match find_from(l, 0, "-machine ") {
        None => None,
        Some(i) => {
            proof {
                reveal_strlit("-machine ");
                lemma_spec_find_first(l@, "-machine "@, 0);
            }
            let n = l.unicode_len();
            let start = i + 9;
            let end = attr_end(l, start);
            if end == start {
                None
            } else {
                Some(String::from_str(l.substring_char(start, end)))
            }
        },
    }
}

/// Machine type, from the first non-comment line that carries either
/// machine flag.
pub fn extract_machine(content: &str) -> (r: Option<String>)
    ensures
        match r {
            Some(m) => spec_extract_machine(content@) == Some(m@),
            None => spec_extract_machine(content@) is None,
        },
{
    let ghost ls = spec_split_lines(content@);
    let lines = split_lines(content);
    let mut k: usize = 0;
    proof {
        assert(ls.skip(0) =~= ls);
    }
    while k < lines.len()
        invariant
            0 <= k <= lines.len(),
            lines@.len() == ls.len(),
            ls == spec_split_lines(content@),
            forall|j: int|
                0 <= j < lines@.len() ==> {
                    &&& 0 <= #[trigger] lines@[j].0 <= lines@[j].1 <= content@.len()
                    &&& content@.subrange(lines@[j].0 as int, lines@[j].1 as int) == ls[j]
                },
            spec_machine_lines(ls) == spec_machine_lines(ls.skip(k as int)),
        decreases lines.len() - k,
    {
        let (a, b) = lines[k];
        let line = content.substring_char(a, b);
        let r = line_machine(line);
        proof {
            assert(ls.skip(k as int)[0] == ls[k as int]);
            assert(ls.skip(k as int).drop_first() =~= ls.skip(k as int + 1));
        }
        if let Some(m) = r {
            return Some(m);
        }
        k += 1;
    }
    None
}

/// Graphics adapter stated by one line: the token after the line's last
/// graphics flag, mapped through the canonical table. Later occurrences
/// override earlier ones within a line too.
pub open spec fn spec_line_vga(l: Seq<char>) -> Option<VgaType> {
    if spec_is_comment_line(l) {
        None
    } else {
        match spec_rfind(l, "-vga "@) {
            None => None,
            Some(i) => {
                let start = i + 5;
                let end = spec_token_end(l, start);
                if end == start {
                    None
                } else {
                    Some(spec_vga_from_token(l.subrange(start, end)))
                }
            },
        }
    }
}

/// Later graphics flags override earlier ones: on re-invoked scripts the
/// last occurrence is the effective setting.
pub open spec fn spec_vga_lines(ls: Seq<Seq<char>>) -> Option<VgaType>
    decreases ls.len(),
{
    if ls.len() == 0 {
        None
    } else {
        match spec_line_vga(ls.last()) {
            Some(v) => Some(v),
            None => spec_vga_lines(ls.drop_last()),
        }
    }
}

pub open spec fn spec_extract_vga(s: Seq<char>) -> Option<VgaType> {
    spec_vga_lines(spec_split_lines(s))
}

fn line_vga(l: &str) -> (r: Option<VgaType>)
    ensures
        r == spec_line_vga(l@),
{
    if is_comment_line(l) {
        return None;
    }
    match rfind_sub(l, "-vga ") {
        None => None,
        Some(i) => {
            proof {
                reveal_strlit("-vga ");
                lemma_spec_rfind(l@, "-vga "@);
            }
            let n = l.unicode_len();
            let start = i + 5;
            let end = token_end(l, start);
            if end == start {
                None
            } else {
                Some(VgaType::from_str(l.substring_char(start, end)))
            }
        },
    }
}

/// Graphics adapter, from the last non-comment line that carries the
/// graphics flag: later occurrences override earlier ones.
pub fn extract_vga(content: &str) -> (r: Option<VgaType>)
    ensures
        r == spec_extract_vga(content@),
{
    let ghost ls = spec_split_lines(content@);
    let lines = split_lines(content);
    let mut acc: Option<VgaType> = None;
    let mut k: usize = 0;
    proof {
        assert(ls.take(0) =~= Seq::<Seq<char>>::empty());
    }
    while k < lines.len()
        invariant
            0 <= k <= lines.len(),
            lines@.len() == ls.len(),
            ls == spec_split_lines(content@),
            forall|j: int|
                0 <= j < lines@.len() ==> {
                    &&& 0 <= #[trigger] lines@[j].0 <= lines@[j].1 <= content@.len()
                    &&& content@.subrange(lines@[j].0 as int, lines@[j].1 as int) == ls[j]
                },
            acc == spec_vga_lines(ls.take(k as int)),
        decreases lines.len() - k,
    {
        let (a, b) = lines[k];
        let line = content.substring_char(a, b);
        let r = line_vga(line);
        proof {
            assert(ls.take(k as int + 1).last() == ls[k as int]);
            assert(ls.take(k as int + 1).drop_last() =~= ls.take(k as int));
        }
        if let Some(v) = r {
            acc = Some(v);
        }
        k += 1;
    }
    proof {
        assert(ls.take(ls.len() as int) =~= ls);
    }
    acc
}

/// The audio device families named anywhere in the script, collected in a
/// fixed order; a script may enable several at once.
pub open spec fn spec_extract_audio(s: Seq<char>) -> Seq<AudioDevice> {
    let d0: Seq<AudioDevice> = if spec_contains(s, "sb16"@) || spec_contains(s, "SB16"@) {
        seq![AudioDevice::Sb16]
    } else {
        Seq::empty()
    };
    let d1: Seq<AudioDevice> = if spec_contains(s, "ac97"@) || spec_contains(s, "AC97"@) {
        seq![AudioDevice::Ac97]
    } else {
        Seq::empty()
    };
    let d2: Seq<AudioDevice> = if spec_contains(s, "intel-hda"@) || spec_contains(
        s,
        "hda-duplex"@,
    ) {
        seq![AudioDevice::Hda]
    } else {
        Seq::empty()
    };
    let d3: Seq<AudioDevice> = if spec_contains(s, "es1370"@) {
        seq![AudioDevice::Es1370]
    } else {
        Seq::empty()
    };
    d0 + d1 + d2 + d3
}

/// Every audio device family named anywhere in the script.
pub fn extract_audio_devices(content: &str) -> (r: Vec<AudioDevice>)
    ensures
        r@ == spec_extract_audio(content@),
{
    let mut devices: Vec<AudioDevice> = Vec::new();
    if contains_sub(content, "sb16") || contains_sub(content, "SB16") {
        devices.push(AudioDevice::Sb16);
    }
    if contains_sub(content, "ac97") || contains_sub(content, "AC97") {
        devices.push(AudioDevice::Ac97);
    }
    if contains_sub(content, "intel-hda") || contains_sub(content, "hda-duplex") {
        devices.push(AudioDevice::Hda);
    }
    if contains_sub(content, "es1370") {
        devices.push(AudioDevice::Es1370);
    }
    proof {
        assert(devices@ =~= spec_extract_audio(content@));
    }
    devices
}

/// Hardware acceleration is requested anywhere in the script.
pub open spec fn spec_extract_kvm(s: Seq<char>) -> bool {
    spec_contains(s, "-enable-kvm"@) || spec_contains(s, "-accel kvm"@)
}

/// Firmware-boot markers appear anywhere in the script.
pub open spec fn spec_extract_uefi(s: Seq<char>) -> bool {
    spec_contains(s, "OVMF"@) || (spec_contains(s, "-bios"@) && spec_contains(s, "efi"@))
}

/// Trusted-platform-module markers appear anywhere in the script.
pub open spec fn spec_extract_tpm(s: Seq<char>) -> bool {
    spec_contains(s, "-tpmdev"@) || spec_contains(s, "swtpm"@)
}


/// Directory that holds the file at `p`: the text before the last slash;
/// a bare file name has the empty directory, an empty path the current one.
pub open spec fn spec_parent_dir(p: Seq<char>) -> Seq<char> {
    match spec_rfind_char(p, '/') {
        None => if p.len() == 0 {
            "."@
        } else {
            Seq::empty()
        },
        Some(i) => if i == 0 {
            "/"@
        } else {
            p.take(i)
        },
    }
}

/// Directory that holds the file at `p`.
pub fn parent_dir(p: &str) -> (r: String)
    ensures
        r@ == spec_parent_dir(p@),
{
    match rfind_char(p, '/') {
        None => {
            if p.unicode_len() == 0 {
                String::from_str(".")
            } else {
                String::new()
            }
        },
        Some(i) => {
            if i == 0 {
                String::from_str("/")
            } else {
                proof {
                    lemma_spec_rfind_char(p@, '/');
                    assert(p@.take(i as int) =~= p@.subrange(0, i as int));
                }
                String::from_str(p.substring_char(0, i))
            }
        },
    }
}

/// `p` placed under `dir`.
pub open spec fn spec_join_path(dir: Seq<char>, p: Seq<char>) -> Seq<char> {
    if dir.len() == 0 {
        p
    } else if dir.last() == '/' {
        dir + p
    } else {
        dir + seq!['/'] + p
    }
}

/// `p` with each recognized placeholder for the script's own directory
/// substituted by `dir`, then made absolute relative to `dir` if it is not
/// already absolute.
pub open spec fn spec_resolve_path(p: Seq<char>, dir: Seq<char>) -> Seq<char> {
    let a = spec_replace_all(p, "$DIR"@, dir);
    let b = spec_replace_all(a, "${DIR}"@, dir);
    let c = spec_replace_all(b, "$(dirname $0)"@, dir);
    if c.len() > 0 && c[0] == '/' {
        c
    } else {
        spec_join_path(dir, c)
    }
}

/// Resolve a path relative to the machine's directory, substituting the
/// recognized placeholders for the script's own directory first.
pub fn resolve_path(path: &str, vm_dir: &str) -> (r: String)
    ensures
        r@ == spec_resolve_path(path@, vm_dir@),
{
    let a = replace_all(path, "$DIR", vm_dir);
    let b = replace_all(a.as_str(), "${DIR}", vm_dir);
    let c = replace_all(b.as_str(), "$(dirname $0)", vm_dir);
    let clen = c.as_str().unicode_len();
    if clen > 0 && c.as_str().get_char(0) == '/' {
        c
    } else {
        let dlen = vm_dir.unicode_len();
        if dlen == 0 {
            c
        } else if vm_dir.get_char(dlen - 1) == '/' {
            let mut out = String::from_str(vm_dir);
            out.append(c.as_str());
            out
        } else {
            let mut out = String::from_str(vm_dir);
            out.append("/");
            out.append(c.as_str());
            proof {
                reveal_strlit("/");
                assert(vm_dir@ + "/"@ + c@ =~= vm_dir@ + seq!['/'] + c@);
            }
            out
        }
    }
}

/// Replacing a placeholder inside text that starts with `dir` cannot touch
/// the `dir` prefix, since `dir` holds no placeholder introducer.
proof fn lemma_replace_keeps_dir_prefix(a: Seq<char>, dir: Seq<char>, pat: Seq<char>, rep: Seq<
    char,
>)
    requires
        pat.len() > 0,
        pat[0] == '$',
        dir.len() <= a.len(),
        forall|k: int| 0 <= k < dir.len() ==> a[k] == dir[k],
        forall|k: int| 0 <= k < dir.len() ==> dir[k] != '$',
    ensures
        spec_replace_all(a, pat, rep) == dir + spec_replace_all(a.skip(dir.len() as int), pat, rep),
{
    let d = dir.len() as int;
    assert forall|j: int| 0 <= j < d implies !crate::text::match_at(a, pat, j) by {
        if crate::text::match_at(a, pat, j) {
            assert(a.subrange(j, j + pat.len() as int)[0] == a[j]);
            assert(a[j] == '$');
            assert(a[j] == dir[j]);
        }
    }
    crate::text::lemma_replace_all_after(a, pat, rep, d);
    assert(a.take(d) =~= dir);
}

/// For a path that begins with one of the three placeholder forms and an
/// absolute machine directory, resolution yields an absolute path rooted at
/// that directory.
pub proof fn lemma_resolve_path_rooted(p: Seq<char>, dir: Seq<char>)
    requires
        dir.len() > 0,
        dir[0] == '/',
        forall|k: int| 0 <= k < dir.len() ==> dir[k] != '$',
        crate::text::match_at(p, "$DIR"@, 0) || crate::text::match_at(p, "${DIR}"@, 0)
            || crate::text::match_at(p, "$(dirname $0)"@, 0),
    ensures
        spec_resolve_path(p, dir).len() > 0,
        spec_resolve_path(p, dir)[0] == '/',
        crate::text::match_at(spec_resolve_path(p, dir), dir, 0),
{
    reveal_strlit("$DIR");
    reveal_strlit("${DIR}");
    reveal_strlit("$(dirname $0)");
    let p1 = "$DIR"@;
    let p2 = "${DIR}"@;
    let p3 = "$(dirname $0)"@;
    let a = spec_replace_all(p, p1, dir);
    let b = spec_replace_all(a, p2, dir);
    let c = spec_replace_all(b, p3, dir);
    assert(p1[0] == '$' && p2[0] == '$' && p3[0] == '$');
    if crate::text::match_at(p, p1, 0) {
        crate::text::lemma_replace_all_prefix(p, p1, dir);
        assert(a == dir + spec_replace_all(p.skip(4), p1, dir));
        assert(forall|k: int| 0 <= k < dir.len() ==> a[k] == dir[k]);
        lemma_replace_keeps_dir_prefix(a, dir, p2, dir);
        assert(forall|k: int| 0 <= k < dir.len() ==> b[k] == dir[k]);
        lemma_replace_keeps_dir_prefix(b, dir, p3, dir);
        assert(forall|k: int| 0 <= k < dir.len() ==> c[k] == dir[k]);
    } else if crate::text::match_at(p, p2, 0) {
        assert(p.subrange(0, 6) == p2);
        assert forall|j: int| 0 <= j < 6 implies !crate::text::match_at(p, p1, j) by {
            if crate::text::match_at(p, p1, j) {
                assert(p.subrange(j, j + 4)[0] == p[j]);
                assert(p.subrange(j, j + 4)[1] == p[j + 1]);
                assert(p[j] == '$' && p[j + 1] == 'D');
                assert(p.subrange(0, 6)[j] == p[j]);
                if j == 0 {
                    assert(p[1] == p2[1]);
                } else if j == 1 {
                } else if j == 2 {
                } else if j == 3 {
                } else if j == 4 {
                } else {
                }
            }
        }
        crate::text::lemma_replace_all_after(p, p1, dir, 6);
        assert(p.take(6) =~= p2);
        assert(a == p2 + spec_replace_all(p.skip(6), p1, dir));
        assert(crate::text::match_at(a, p2, 0)) by {
            assert(a.subrange(0, 6) =~= p2);
        }
        crate::text::lemma_replace_all_prefix(a, p2, dir);
        assert(forall|k: int| 0 <= k < dir.len() ==> b[k] == dir[k]);
        lemma_replace_keeps_dir_prefix(b, dir, p3, dir);
        assert(forall|k: int| 0 <= k < dir.len() ==> c[k] == dir[k]);
    } else {
        assert(p.subrange(0, 13) == p3);
        assert forall|j: int| 0 <= j < 13 implies !crate::text::match_at(p, p1, j) by {
            if crate::text::match_at(p, p1, j) {
                assert(p.subrange(j, j + 4)[0] == p[j]);
                assert(p.subrange(j, j + 4)[1] == p[j + 1]);
                assert(p[j] == '$' && p[j + 1] == 'D');
                assert(p.subrange(0, 13)[j] == p[j]);
                assert(p.subrange(0, 13)[j + 1] == p[j + 1] || j == 12);
            }
        }
        crate::text::lemma_replace_all_after(p, p1, dir, 13);
        assert(p.take(13) =~= p3);
        assert(a == p3 + spec_replace_all(p.skip(13), p1, dir));
        assert forall|j: int| 0 <= j < 13 implies !crate::text::match_at(a, p2, j) by {
            if crate::text::match_at(a, p2, j) {
                assert(a.subrange(j, j + 6)[0] == a[j]);
                assert(a.subrange(j, j + 6)[1] == a[j + 1]);
                assert(a[j] == '$' && a[j + 1] == '{');
                assert(a[j] == p3[j]);
                assert(a[j + 1] == p3[j + 1] || j == 12);
            }
        }
        crate::text::lemma_replace_all_after(a, p2, dir, 13);
        assert(a.take(13) =~= p3);
        assert(b == p3 + spec_replace_all(a.skip(13), p2, dir));
        assert(crate::text::match_at(b, p3, 0)) by {
            assert(b.subrange(0, 13) =~= p3);
        }
        crate::text::lemma_replace_all_prefix(b, p3, dir);
        assert(forall|k: int| 0 <= k < dir.len() ==> c[k] == dir[k]);
    }
    assert(c.len() >= dir.len());
    assert(c[0] == '/');
    assert(spec_resolve_path(p, dir) == c);
    assert(c.subrange(0, dir.len() as int) =~= dir);
}

/// A path argument: double-quoted, single-quoted, or bare up to the next
/// whitespace or continuation marker; a bare candidate starting with a dash
/// is a flag, not a path.
pub open spec fn spec_extract_path_from_arg(arg: Seq<char>) -> Option<Seq<char>> {
    let t0 = spec_skip_spaces(arg, 0);
    let t1 = spec_rtrim(arg);
    let t = if t0 <= t1 {
        arg.subrange(t0, t1)
    } else {
        Seq::empty()
    };
    if t.len() > 0 && t[0] == '"' {
        match spec_find_char(t, '"', 1) {
            None => None,
            Some(e) => Some(t.subrange(1, e)),
        }
    } else if t.len() > 0 && t[0] == '\'' {
        match spec_find_char(t, '\'', 1) {
            None => None,
            Some(e) => Some(t.subrange(1, e)),
        }
    } else {
        let end = spec_token_end(t, 0);
        if end > 0 && t[0] != '-' {
            Some(t.take(end))
        } else {
            None
        }
    }
}

/// The path named by one flag argument, if any.
pub fn extract_path_from_arg(arg: &str) -> (r: Option<String>)
    ensures
        match r {
            Some(p) => spec_extract_path_from_arg(arg@) == Some(p@),
            None => spec_extract_path_from_arg(arg@) is None,
        },
{
    let t0 = skip_spaces(arg, 0);
    let t1 = rtrim_end(arg);
    if t1 <= t0 {
        proof {
            assert(arg@.subrange(t0 as int, t1 as int).len() == 0 || t0 > t1);
        }
        return None;
    }
    let t = arg.substring_char(t0, t1);
    proof {
        assert(t@ =~= arg@.subrange(t0 as int, t1 as int));
    }
    let c0 = t.get_char(0);
    if c0 == '"' {
        match find_char_from(t, 1, '"') {
            None => None,
            Some(e) => {
                proof {
                    lemma_spec_find_char_first(t@, '"', 1);
                }
                Some(String::from_str(t.substring_char(1, e)))
            },
        }
    } else if c0 == '\'' {
        match find_char_from(t, 1, '\'') {
            None => None,
            Some(e) => {
                proof {
                    lemma_spec_find_char_first(t@, '\'', 1);
                }
                Some(String::from_str(t.substring_char(1, e)))
            },
        }
    } else {
        let end = token_end(t, 0);
        if end > 0 && c0 != '-' {
            proof {
                assert(t@.take(end as int) =~= t@.subrange(0, end as int));
            }
            Some(String::from_str(t.substring_char(0, end)))
        } else {
            None
        }
    }
}

/// The file path carried by a modern drive flag's `file=` attribute.
pub open spec fn spec_extract_drive_file(l: Seq<char>) -> Option<Seq<char>> {
    match spec_find(l, "file="@, 0) {
        None => None,
        Some(i) => {
            let r = i + 5;
            if r < l.len() && l[r] == '"' {
                match spec_find_char(l, '"', r + 1) {
                    None => None,
                    Some(e) => Some(l.subrange(r + 1, e)),
                }
            } else {
                let end = spec_attr_end(l, r);
                if end == r {
                    None
                } else {
                    Some(l.subrange(r, end))
                }
            }
        },
    }
}

/// The file path of a drive flag's `file=` attribute on this line.
pub fn extract_drive_file(line: &str) -> (r: Option<String>)
    ensures
        match r {
            Some(p) => spec_extract_drive_file(line@) == Some(p@),
            None => spec_extract_drive_file(line@) is None,
        },
{
    match find_from(line, 0, "file=") {
        None => None,
        Some(i) => {
            proof {
                reveal_strlit("file=");
                lemma_spec_find_first(line@, "file="@, 0);
            }
            let n = line.unicode_len();
            let rstart = i + 5;
            if rstart < n && line.get_char(rstart) == '"' {
                match find_char_from(line, rstart + 1, '"') {
                    None => None,
                    Some(e) => {
                        proof {
                            lemma_spec_find_char_first(line@, '"', rstart as int + 1);
                        }
                        Some(String::from_str(line.substring_char(rstart + 1, e)))
                    },
                }
            } else {
                let end = attr_end(line, rstart);
                if end == rstart {
                    None
                } else {
                    Some(String::from_str(line.substring_char(rstart, end)))
                }
            }
        },
    }
}

/// Extension of the last path component: the text after its final dot, when
/// that dot is not the component's first character.
pub open spec fn spec_path_extension(p: Seq<char>) -> Option<Seq<char>> {
    let comp_start = match spec_rfind_char(p, '/') {
        None => 0,
        Some(i) => i + 1,
    };
    let comp = p.skip(comp_start);
    match spec_rfind_char(comp, '.') {
        None => None,
        Some(j) => if j == 0 {
            None
        } else {
            Some(comp.skip(j + 1))
        },
    }
}

/// The disk format a path's extension implies; raw when there is none.
pub open spec fn spec_guess_format(p: Seq<char>) -> DiskFormat {
    match spec_path_extension(p) {
        None => DiskFormat::Raw,
        Some(e) => spec_format_from_extension(e),
    }
}

/// The disk format inferred from the file extension of `path`.
pub fn guess_disk_format(path: &str) -> (r: DiskFormat)
    ensures
        r == spec_guess_format(path@),
{
    let n = path.unicode_len();
    let comp_start: usize = match rfind_char(path, '/') {
        None => 0,
        Some(i) => {
            proof {
                lemma_spec_rfind_char(path@, '/');
            }
            i + 1
        },
    };
    let comp = path.substring_char(comp_start, n);
    proof {
        assert(comp@ =~= path@.skip(comp_start as int));
    }
    let clen = comp.unicode_len();
    match rfind_char(comp, '.') {
        None => DiskFormat::Raw,
        Some(j) => {
            proof {
                lemma_spec_rfind_char(comp@, '.');
            }
            if j == 0 {
                DiskFormat::Raw
            } else {
                proof {
                    assert(comp@.skip(j as int + 1) =~= comp@.subrange(j as int + 1, clen as int));
                }
                DiskFormat::from_extension(comp.substring_char(j + 1, clen))
            }
        },
    }
}

/// Inferring the format back from a file named with a format's canonical
/// extension yields the same format: the extraction side of the disk table
/// cannot drift from the synthesis side, for any dot-free, slash-free stem.
pub proof fn lemma_guess_format_round_trip(stem: Seq<char>, f: DiskFormat)
    requires
        stem.len() > 0,
        forall|k: int| 0 <= k < stem.len() ==> stem[k] != '.' && stem[k] != '/',
    ensures
        spec_guess_format(stem + seq!['.'] + crate::qemu_config::format_extension(f)) == f,
{
    reveal_strlit("qcow2");
    reveal_strlit("raw");
    reveal_strlit("vdi");
    reveal_strlit("vmdk");
    reveal_strlit("vhd");
    let ext = crate::qemu_config::format_extension(f);
    assert(forall|k: int| 0 <= k < ext.len() ==> ext[k] != '.' && ext[k] != '/') by {
        match f {
            DiskFormat::Qcow2 => {
                assert(spec_find_char("qcow2"@, '.', 0) is None) by {
                    reveal_with_fuel(crate::text::spec_find_char, 8);
                }
                assert(spec_find_char("qcow2"@, '/', 0) is None) by {
                    reveal_with_fuel(crate::text::spec_find_char, 8);
                }
                crate::text::lemma_spec_find_char_first("qcow2"@, '.', 0);
                crate::text::lemma_spec_find_char_first("qcow2"@, '/', 0);
            },
            DiskFormat::Raw => {
                assert(spec_find_char("raw"@, '.', 0) is None) by {
                    reveal_with_fuel(crate::text::spec_find_char, 6);
                }
                assert(spec_find_char("raw"@, '/', 0) is None) by {
                    reveal_with_fuel(crate::text::spec_find_char, 6);
                }
                crate::text::lemma_spec_find_char_first("raw"@, '.', 0);
                crate::text::lemma_spec_find_char_first("raw"@, '/', 0);
            },
            DiskFormat::Vdi => {
                assert(spec_find_char("vdi"@, '.', 0) is None) by {
                    reveal_with_fuel(crate::text::spec_find_char, 6);
                }
                assert(spec_find_char("vdi"@, '/', 0) is None) by {
                    reveal_with_fuel(crate::text::spec_find_char, 6);
                }
                crate::text::lemma_spec_find_char_first("vdi"@, '.', 0);
                crate::text::lemma_spec_find_char_first("vdi"@, '/', 0);
            },
            DiskFormat::Vmdk => {
                assert(spec_find_char("vmdk"@, '.', 0) is None) by {
                    reveal_with_fuel(crate::text::spec_find_char, 7);
                }
                assert(spec_find_char("vmdk"@, '/', 0) is None) by {
                    reveal_with_fuel(crate::text::spec_find_char, 7);
                }
                crate::text::lemma_spec_find_char_first("vmdk"@, '.', 0);
                crate::text::lemma_spec_find_char_first("vmdk"@, '/', 0);
            },
            DiskFormat::Vhd => {
                assert(spec_find_char("vhd"@, '.', 0) is None) by {
                    reveal_with_fuel(crate::text::spec_find_char, 6);
                }
                assert(spec_find_char("vhd"@, '/', 0) is None) by {
                    reveal_with_fuel(crate::text::spec_find_char, 6);
                }
                crate::text::lemma_spec_find_char_first("vhd"@, '.', 0);
                crate::text::lemma_spec_find_char_first("vhd"@, '/', 0);
            },
        }
    }
    let p = stem + seq!['.'] + ext;
    let dot = stem.len() as int;
    assert(p[dot] == '.');
    assert(forall|k: int| 0 <= k < dot ==> p[k] == stem[k]);
    assert(forall|k: int| dot < k < p.len() ==> p[k] == ext[k - dot - 1]);
    assert forall|j: int| 0 <= j < p.len() implies p[j] != '/' by {
        if j < dot {
        } else if j == dot {
        } else {
        }
    }
    crate::text::lemma_spec_rfind_char(p, '/');
    if spec_rfind_char(p, '/') is Some {
        let w = spec_rfind_char(p, '/')->Some_0;
        assert(p[w] == '/');
    }
    assert(p.skip(0) =~= p);
    assert forall|j: int| dot < j < p.len() implies p[j] != '.' by {}
    crate::text::lemma_spec_rfind_char_is(p, '.', dot);
    assert(p.skip(dot + 1) =~= ext);
    crate::qemu_config::lemma_disk_format_round_trip(f);
}

/// One disk as extraction describes it: resolved path, format, interface.
pub open spec fn spec_disk_entry(p: Seq<char>, dir: Seq<char>, iface: Seq<char>) -> (
    Seq<char>,
    DiskFormat,
    Seq<char>,
) {
    let full = spec_resolve_path(p, dir);
    (full, spec_guess_format(full), iface)
}

/// The extracted disk carries exactly the described path, format and
/// interface.
pub open spec fn spec_disk_matches(d: DiskConfig, t: (Seq<char>, DiskFormat, Seq<char>)) -> bool {
    &&& d.path@ == t.0
    &&& d.format == t.1
    &&& d.interface@ == t.2
}

/// Disks contributed by one legacy fixed-slot flag on one line.
pub open spec fn spec_hd_disk(l: Seq<char>, dir: Seq<char>, pat: Seq<char>) -> Seq<
    (Seq<char>, DiskFormat, Seq<char>),
> {
    match spec_find(l, pat, 0) {
        None => Seq::empty(),
        Some(i) => match spec_extract_path_from_arg(l.skip(i + pat.len() as int)) {
            None => Seq::empty(),
            Some(p) => seq![spec_disk_entry(p, dir, "ide"@)],
        },
    }
}

/// Interface named by a modern drive flag; the legacy label otherwise.
pub open spec fn spec_drive_interface(l: Seq<char>) -> Seq<char> {
    if spec_contains(l, "if=virtio"@) {
        "virtio"@
    } else if spec_contains(l, "if=scsi"@) {
        "scsi"@
    } else {
        "ide"@
    }
}

/// Disks contributed by a modern drive flag on one line.
pub open spec fn spec_drive_disk(l: Seq<char>, dir: Seq<char>) -> Seq<
    (Seq<char>, DiskFormat, Seq<char>),
> {
    if spec_contains(l, "-drive"@) && spec_contains(l, "file="@) {
        match spec_extract_drive_file(l) {
            None => Seq::empty(),
            Some(p) => seq![spec_disk_entry(p, dir, spec_drive_interface(l))],
        }
    } else {
        Seq::empty()
    }
}

/// Disks contributed by one line, fixed slots first, then the drive flag.
pub open spec fn spec_line_disks(l: Seq<char>, dir: Seq<char>) -> Seq<
    (Seq<char>, DiskFormat, Seq<char>),
> {
    if spec_is_comment_line(l) {
        Seq::empty()
    } else {
        spec_hd_disk(l, dir, "-hda "@) + spec_hd_disk(l, dir, "-hdb "@) + spec_hd_disk(
            l,
            dir,
            "-hdc "@,
        ) + spec_hd_disk(l, dir, "-hdd "@) + spec_drive_disk(l, dir)
    }
}

/// Disks of all lines, in order of first appearance.
pub open spec fn spec_disks_lines(ls: Seq<Seq<char>>, dir: Seq<char>) -> Seq<
    (Seq<char>, DiskFormat, Seq<char>),
>
    decreases ls.len(),
{
    if ls.len() == 0 {
        Seq::empty()
    } else {
        spec_line_disks(ls[0], dir) + spec_disks_lines(ls.drop_first(), dir)
    }
}

pub open spec fn spec_extract_disks(s: Seq<char>, dir: Seq<char>) -> Seq<
    (Seq<char>, DiskFormat, Seq<char>),
> {
    spec_disks_lines(spec_split_lines(s), dir)
}

/// The disk sequence splits at any line boundary.
proof fn lemma_disks_lines_split(ls: Seq<Seq<char>>, dir: Seq<char>, k: int)
    requires
        0 <= k <= ls.len(),
    ensures
        spec_disks_lines(ls, dir) == spec_disks_lines(ls.take(k), dir) + spec_disks_lines(
            ls.skip(k),
            dir,
        ),
    decreases k,
{
    if k == 0 {
        assert(ls.take(0) =~= Seq::<Seq<char>>::empty());
        assert(ls.skip(0) =~= ls);
        assert(spec_disks_lines(ls.take(0), dir) + spec_disks_lines(ls, dir) =~= spec_disks_lines(
            ls,
            dir,
        ));
    } else {
        let tail = ls.drop_first();
        lemma_disks_lines_split(tail, dir, k - 1);
        assert(ls.take(k)[0] == ls[0]);
        assert(ls.take(k).drop_first() =~= tail.take(k - 1));
        assert(ls.skip(k) =~= tail.skip(k - 1));
        assert(spec_line_disks(ls[0], dir) + (spec_disks_lines(tail.take(k - 1), dir)
            + spec_disks_lines(tail.skip(k - 1), dir)) =~= (spec_line_disks(ls[0], dir)
            + spec_disks_lines(tail.take(k - 1), dir)) + spec_disks_lines(tail.skip(k - 1), dir));
    }
}

/// The disk named by one legacy fixed-slot flag on this line, if any.
fn hd_disk(l: &str, vm_dir: &str, pat: &str) -> (r: Option<DiskConfig>)
    ensures
        match r {
            Some(d) => spec_hd_disk(l@, vm_dir@, pat@).len() == 1 && spec_disk_matches(
                d,
                spec_hd_disk(l@, vm_dir@, pat@)[0],
            ),
            None => spec_hd_disk(l@, vm_dir@, pat@).len() == 0,
        },
{
    match find_from(l, 0, pat) {
        None => None,
        Some(i) => {
            proof {
                lemma_spec_find_first(l@, pat@, 0);
            }
            let n = l.unicode_len();
            let plen = pat.unicode_len();
            let rest = l.substring_char(i + plen, n);
            proof {
                assert(rest@ =~= l@.skip(i as int + pat@.len() as int));
            }
            match extract_path_from_arg(rest) {
                None => None,
                Some(p) => {
                    let full = resolve_path(p.as_str(), vm_dir);
                    let format = guess_disk_format(full.as_str());
                    Some(DiskConfig { path: full, format, interface: String::from_str("ide") })
                },
            }
        },
    }
}

/// The disk named by a modern drive flag on this line, if any.
fn drive_disk(l: &str, vm_dir: &str) -> (r: Option<DiskConfig>)
    ensures
        match r {
            Some(d) => spec_drive_disk(l@, vm_dir@).len() == 1 && spec_disk_matches(
                d,
                spec_drive_disk(l@, vm_dir@)[0],
            ),
            None => spec_drive_disk(l@, vm_dir@).len() == 0,
        },
{
    if !(contains_sub(l, "-drive") && contains_sub(l, "file=")) {
        return None;
    }
    match extract_drive_file(l) {
        None => None,
        Some(p) => {
            let full = resolve_path(p.as_str(), vm_dir);
            let format = guess_disk_format(full.as_str());
            let interface = if contains_sub(l, "if=virtio") {
                String::from_str("virtio")
            } else if contains_sub(l, "if=scsi") {
                String::from_str("scsi")
            } else {
                String::from_str("ide")
            };
            Some(DiskConfig { path: full, format, interface })
        },
    }
}

/// All disks this line contributes, fixed slots first.
fn line_disks(l: &str, vm_dir: &str) -> (r: Vec<DiskConfig>)
    ensures
        r@.len() == spec_line_disks(l@, vm_dir@).len(),
        forall|i: int|
            0 <= i < r@.len() ==> spec_disk_matches(r@[i], spec_line_disks(l@, vm_dir@)[i]),
{
    let mut v: Vec<DiskConfig> = Vec::new();
    if is_comment_line(l) {
        return v;
    }
    let ghost d0 = spec_hd_disk(l@, vm_dir@, "-hda "@);
    let ghost d1 = spec_hd_disk(l@, vm_dir@, "-hdb "@);
    let ghost d2 = spec_hd_disk(l@, vm_dir@, "-hdc "@);
    let ghost d3 = spec_hd_disk(l@, vm_dir@, "-hdd "@);
    let ghost d4 = spec_drive_disk(l@, vm_dir@);
    if let Some(d) = hd_disk(l, vm_dir, "-hda ") {
        v.push(d);
    }
    proof {
        assert(v@.len() == d0.len());
        assert(forall|i: int| 0 <= i < v@.len() ==> spec_disk_matches(v@[i], d0[i]));
    }
    if let Some(d) = hd_disk(l, vm_dir, "-hdb ") {
        v.push(d);
    }
    proof {
        assert(v@.len() == (d0 + d1).len());
        assert(forall|i: int| 0 <= i < v@.len() ==> spec_disk_matches(v@[i], (d0 + d1)[i]));
    }
    if let Some(d) = hd_disk(l, vm_dir, "-hdc ") {
        v.push(d);
    }
    proof {
        assert(v@.len() == (d0 + d1 + d2).len());
        assert(forall|i: int| 0 <= i < v@.len() ==> spec_disk_matches(v@[i], (d0 + d1 + d2)[i]));
    }
    if let Some(d) = hd_disk(l, vm_dir, "-hdd ") {
        v.push(d);
    }
    proof {
        assert(v@.len() == (d0 + d1 + d2 + d3).len());
        assert(forall|i: int|
            0 <= i < v@.len() ==> spec_disk_matches(v@[i], (d0 + d1 + d2 + d3)[i]));
    }
    if let Some(d) = drive_disk(l, vm_dir) {
        v.push(d);
    }
    proof {
        assert(v@.len() == (d0 + d1 + d2 + d3 + d4).len());
        assert(forall|i: int|
            0 <= i < v@.len() ==> spec_disk_matches(v@[i], (d0 + d1 + d2 + d3 + d4)[i]));
    }
    v
}

/// Every disk the script names, in order of first appearance: legacy
/// fixed-slot flags and modern drive flags with a `file=` attribute.
pub fn extract_disks(content: &str, vm_dir: &str) -> (r: Vec<DiskConfig>)
    ensures
        r@.len() == spec_extract_disks(content@, vm_dir@).len(),
        forall|i: int|
            0 <= i < r@.len() ==> spec_disk_matches(
                r@[i],
                spec_extract_disks(content@, vm_dir@)[i],
            ),
{
    let ghost ls = spec_split_lines(content@);
    let ghost dir = vm_dir@;
    let lines = split_lines(content);
    let mut v: Vec<DiskConfig> = Vec::new();
    let mut k: usize = 0;
    proof {
        assert(ls.take(0) =~= Seq::<Seq<char>>::empty());
    }
    while k < lines.len()
        invariant
            0 <= k <= lines.len(),
            lines@.len() == ls.len(),
            ls == spec_split_lines(content@),
            dir == vm_dir@,
            forall|j: int|
                0 <= j < lines@.len() ==> {
                    &&& 0 <= #[trigger] lines@[j].0 <= lines@[j].1 <= content@.len()
                    &&& content@.subrange(lines@[j].0 as int, lines@[j].1 as int) == ls[j]
                },
            v@.len() == spec_disks_lines(ls.take(k as int), dir).len(),
            forall|i: int|
                0 <= i < v@.len() ==> spec_disk_matches(
                    v@[i],
                    spec_disks_lines(ls.take(k as int), dir)[i],
                ),
        decreases lines.len() - k,
    {
        let (a, b) = lines[k];
        let line = content.substring_char(a, b);
        let mut ds = line_disks(line, vm_dir);
        let ghost old_v = v@;
        let ghost ds_view = ds@;
        let ghost dcount: int = ds@.len() as int;
        proof {
            assert(ds_view.skip(0) =~= ds_view);
            assert(old_v + ds_view.take(0) =~= v@);
        }
        while ds.len() > 0
            invariant
                dcount == ds_view.len(),
                ds@.len() <= dcount,
                ds@ == ds_view.skip(dcount - ds@.len()),
                v@ == old_v + ds_view.take(dcount - ds@.len()),
            decreases ds.len(),
        {
            let ghost t: int = dcount - ds@.len();
            let d = ds.remove(0);
            proof {
                assert(ds_view.skip(t)[0] == ds_view[t]);
                assert(ds_view.skip(t).remove(0) =~= ds_view.skip(t + 1));
                assert(ds_view.take(t).push(ds_view[t]) =~= ds_view.take(t + 1));
            }
            v.push(d);
        }
        proof {
            assert(ds_view.take(ds_view.len() as int) =~= ds_view);
            lemma_disks_lines_split(ls.take(k as int + 1), dir, k as int);
            assert(ls.take(k as int + 1).take(k as int) =~= ls.take(k as int));
            assert(ls.take(k as int + 1).skip(k as int) =~= seq![ls[k as int]]);
            reveal_with_fuel(spec_disks_lines, 2);
            assert(seq![ls[k as int]].drop_first() =~= Seq::<Seq<char>>::empty());
            assert(seq![ls[k as int]][0] == ls[k as int]);
            assert(spec_disks_lines(seq![ls[k as int]], dir) =~= spec_line_disks(
                ls[k as int],
                dir,
            ));
        }
        k += 1;
    }
    proof {
        assert(ls.take(ls.len() as int) =~= ls);
    }
    v
}


/// Accumulated network facts: adapter model, user-mode flag, bridge name.
pub open spec fn spec_net_init() -> (Seq<char>, bool, Option<Seq<char>>) {
    (Seq::empty(), false, None)
}

/// One non-comment line's contribution to the network facts: a
/// network-introducing flag may name the adapter model, a user-mode marker
/// sets the NAT flag, a bridge marker clears it and may name the bridge.
pub open spec fn spec_net_step(st: (Seq<char>, bool, Option<Seq<char>>), l: Seq<char>) -> (
    Seq<char>,
    bool,
    Option<Seq<char>>,
) {
    if spec_is_comment_line(l) {
        st
    } else {
        let model = if spec_contains(l, "-net nic"@) || spec_contains(l, "-netdev"@)
            || spec_contains(l, "-nic"@) {
            if spec_contains(l, "model=virtio"@) {
                "virtio-net"@
            } else if spec_contains(l, "model=e1000"@) {
                "e1000"@
            } else if spec_contains(l, "model=rtl8139"@) {
                "rtl8139"@
            } else {
                st.0
            }
        } else {
            st.0
        };
        let user = if spec_contains(l, "-net user"@) || spec_contains(l, "user,"@) {
            true
        } else {
            st.1
        };
        if spec_contains(l, "-net bridge"@) || spec_contains(l, "bridge,"@) {
            let bridge = match spec_find(l, "br="@, 0) {
                None => st.2,
                Some(i) => Some(l.subrange(i + 3, spec_name_end(l, i + 3))),
            };
            (model, false, bridge)
        } else {
            (model, user, st.2)
        }
    }
}

pub open spec fn spec_net_lines(ls: Seq<Seq<char>>) -> (Seq<char>, bool, Option<Seq<char>>)
    decreases ls.len(),
{
    if ls.len() == 0 {
        spec_net_init()
    } else {
        spec_net_step(spec_net_lines(ls.drop_last()), ls.last())
    }
}

/// The network configuration the script implies: present exactly when one
/// of the network-introducing flags occurs anywhere in the text; absent
/// otherwise, which is a different fact than a default-valued one.
pub open spec fn spec_extract_network(s: Seq<char>) -> Option<(Seq<char>, bool, Option<Seq<char>>)> {
    if spec_contains(s, "-net"@) || spec_contains(s, "-nic"@) {
        Some(spec_net_lines(spec_split_lines(s)))
    } else {
        None
    }
}

/// View of an optional owned string.
pub open spec fn opt_string_view(o: Option<String>) -> Option<Seq<char>> {
    match o {
        Some(s) => Some(s@),
        None => None,
    }
}

/// The extracted network option carries exactly the described facts.
pub open spec fn spec_network_matches(
    n: Option<NetworkConfig>,
    t: Option<(Seq<char>, bool, Option<Seq<char>>)>,
) -> bool {
    match (n, t) {
        (Option::None, Option::None) => true,
        (Option::Some(nc), Option::Some(tu)) => nc.model@ == tu.0 && nc.user_net == tu.1
            && opt_string_view(nc.bridge) == tu.2,
        _ => false,
    }
}

/// The network configuration, if the script introduces a NIC at all.
pub fn extract_network(content: &str) -> (r: Option<NetworkConfig>)
    ensures
        spec_network_matches(r, spec_extract_network(content@)),
        r is None <==> spec_extract_network(content@) is None,
{
    if !(contains_sub(content, "-net") || contains_sub(content, "-nic")) {
        return None;
    }
    let ghost ls = spec_split_lines(content@);
    let lines = split_lines(content);
    let mut model = String::new();
    let mut user: bool = false;
    let mut bridge: Option<String> = None;
    let mut k: usize = 0;
    proof {
        assert(ls.take(0) =~= Seq::<Seq<char>>::empty());
    }
    while k < lines.len()
        invariant
            0 <= k <= lines.len(),
            lines@.len() == ls.len(),
            ls == spec_split_lines(content@),
            forall|j: int|
                0 <= j < lines@.len() ==> {
                    &&& 0 <= #[trigger] lines@[j].0 <= lines@[j].1 <= content@.len()
                    &&& content@.subrange(lines@[j].0 as int, lines@[j].1 as int) == ls[j]
                },
            model@ == spec_net_lines(ls.take(k as int)).0,
            user == spec_net_lines(ls.take(k as int)).1,
            opt_string_view(bridge) == spec_net_lines(ls.take(k as int)).2,
        decreases lines.len() - k,
    {
        let (a, b) = lines[k];
        let line = content.substring_char(a, b);
        proof {
            assert(ls.take(k as int + 1).last() == ls[k as int]);
            assert(ls.take(k as int + 1).drop_last() =~= ls.take(k as int));
        }
        if !is_comment_line(line) {
            let introduces = contains_sub(line, "-net nic") || contains_sub(line, "-netdev")
                || contains_sub(line, "-nic");
            if introduces {
                if contains_sub(line, "model=virtio") {
                    model = String::from_str("virtio-net");
                } else if contains_sub(line, "model=e1000") {
                    model = String::from_str("e1000");
                } else if contains_sub(line, "model=rtl8139") {
                    model = String::from_str("rtl8139");
                }
            }
            if contains_sub(line, "-net user") || contains_sub(line, "user,") {
                user = true;
            }
            if contains_sub(line, "-net bridge") || contains_sub(line, "bridge,") {
                user = false;
                match find_from(line, 0, "br=") {
                    None => {},
                    Some(i) => {
                        proof {
                            reveal_strlit("br=");
                            lemma_spec_find_first(line@, "br="@, 0);
                        }
                        let e = name_end(line, i + 3);
                        bridge = Some(String::from_str(line.substring_char(i + 3, e)));
                    },
                }
            }
        }
        k += 1;
    }
    proof {
        assert(ls.take(ls.len() as int) =~= ls);
    }
    Some(NetworkConfig { model, user_net: user, bridge })
}

/// Recognized-but-unmodeled flags, captured verbatim for display: the
/// display backend choice, the generic USB flag, the local-time
/// real-time-clock flag.
pub open spec fn spec_extract_extra(s: Seq<char>) -> Seq<Seq<char>> {
    let a0: Seq<Seq<char>> = if spec_contains(s, "-display gtk"@) {
        seq!["-display gtk"@]
    } else if spec_contains(s, "-display sdl"@) {
        seq!["-display sdl"@]
    } else if spec_contains(s, "-display vnc"@) {
        seq!["-display vnc"@]
    } else {
        Seq::empty()
    };
    let a1: Seq<Seq<char>> = if spec_contains(s, "-usb"@) {
        seq!["-usb"@]
    } else {
        Seq::empty()
    };
    let a2: Seq<Seq<char>> = if spec_contains(s, "-rtc base=localtime"@) {
        seq!["-rtc base=localtime"@]
    } else {
        Seq::empty()
    };
    a0 + a1 + a2
}

/// Each owned string holds exactly the described characters.
pub open spec fn spec_strings_match(v: Seq<String>, s: Seq<Seq<char>>) -> bool {
    &&& v.len() == s.len()
    &&& forall|i: int| 0 <= i < v.len() ==> v[i]@ == s[i]
}

/// The recognized-but-unmodeled flags present in the script, verbatim.
pub fn extract_extra_args(content: &str) -> (r: Vec<String>)
    ensures
        spec_strings_match(r@, spec_extract_extra(content@)),
{
    let mut args: Vec<String> = Vec::new();
    let ghost a0 = spec_extract_extra(content@);
    if contains_sub(content, "-display gtk") {
        args.push(String::from_str("-display gtk"));
    } else if contains_sub(content, "-display sdl") {
        args.push(String::from_str("-display sdl"));
    } else if contains_sub(content, "-display vnc") {
        args.push(String::from_str("-display vnc"));
    }
    if contains_sub(content, "-usb") {
        args.push(String::from_str("-usb"));
    }
    if contains_sub(content, "-rtc base=localtime") {
        args.push(String::from_str("-rtc base=localtime"));
    }
    args
}

/// Best-effort extraction of the whole configuration from one script: every
/// recognized field is read by the rules above, absence of a flag leaves
/// its field at the type default, and the original text is retained
/// verbatim. Nothing here fails: structural failures can only arise before
/// the text reaches this function.
pub fn parse_launch_script(script_path: &str, content: &str) -> (r: QemuConfig)
    ensures
        r.emulator == (match spec_extract_emulator(content@) {
            Some(e) => e,
            None => QemuEmulator::Unknown,
        }),
        r.memory_mb == (match spec_extract_memory(content@) {
            Some(v) => v,
            None => 0u32,
        }),
        r.cpu_cores == (match spec_extract_cpu_cores(content@) {
            Some(v) => v,
            None => 0u32,
        }),
        opt_string_view(r.cpu_model) == spec_extract_cpu_model(content@),
        opt_string_view(r.machine) == spec_extract_machine(content@),
        r.vga == (match spec_extract_vga(content@) {
            Some(v) => v,
            None => VgaType::Unknown,
        }),
        r.audio_devices@ == spec_extract_audio(content@),
        r.enable_kvm == spec_extract_kvm(content@),
        r.uefi == spec_extract_uefi(content@),
        r.tpm == spec_extract_tpm(content@),
        r.disks@.len() == spec_extract_disks(content@, spec_parent_dir(script_path@)).len(),
        forall|i: int|
            0 <= i < r.disks@.len() ==> spec_disk_matches(
                r.disks@[i],
                spec_extract_disks(content@, spec_parent_dir(script_path@))[i],
            ),
        spec_network_matches(r.network, spec_extract_network(content@)),
        spec_strings_match(r.extra_args@, spec_extract_extra(content@)),
        r.raw_script@ == content@,
{
    let vm_dir = parent_dir(script_path);
    let emulator = match extract_emulator(content) {
        Some(e) => e,
        None => QemuEmulator::Unknown,
    };
    let memory_mb = match extract_memory(content) {
        Some(v) => v,
        None => 0,
    };
    let cpu_cores = match extract_cpu_cores(content) {
        Some(v) => v,
        None => 0,
    };
    let cpu_model = extract_cpu_model(content);
    let machine = extract_machine(content);
    let vga = match extract_vga(content) {
        Some(v) => v,
        None => VgaType::Unknown,
    };
    let audio_devices = extract_audio_devices(content);
    let enable_kvm = contains_sub(content, "-enable-kvm") || contains_sub(content, "-accel kvm");
    let uefi = contains_sub(content, "OVMF") || (contains_sub(content, "-bios") && contains_sub(
        content,
        "efi",
    ));
    let tpm = contains_sub(content, "-tpmdev") || contains_sub(content, "swtpm");
    let disks = extract_disks(content, vm_dir.as_str());
    let network = extract_network(content);
    let extra_args = extract_extra_args(content);
    QemuConfig {
        emulator,
        memory_mb,
        cpu_cores,
        cpu_model,
        machine,
        vga,
        audio_devices,
        enable_kvm,
        uefi,
        tpm,
        disks,
        network,
        extra_args,
        raw_script: String::from_str(content),
    }
}

} // verus!
