//! H.264 encoders: which one is used, and the pipeline that is built round it.

use crate::desktop_config::opt_str;
use crate::text::same_text;
use vstd::prelude::*;

verus! {

/// The encoder that was found. The browser side depends on it, and the peer's
/// codecs do.
#[derive(Debug, Clone, Copy, PartialEq, Eq, Structural)]
pub enum EncoderType {
    Nvidia,
    /// NVENC by way of CUDA (`nvcudah264enc`). Blackwell GPUs need it: there
    /// `nvh264enc` can be created and yields nothing.
    NvidiaCuda,
    VaApi,
    Software,
}

/// The error where no encoder works.
pub const NO_ENCODER_ERROR: &'static str =
    "No H.264 encoder found. Install gstreamer plugins (good/bad/ugly).";

/// The error where the encoder's pipeline is gone.
pub const DISCONNECTED_ERROR: &'static str = "Encoder pipeline disconnected";

/// The name of an encoder's element.
pub open spec fn element_name(encoder: EncoderType) -> Seq<char> {
    match encoder {
        EncoderType::Nvidia => "nvh264enc"@,
        EncoderType::NvidiaCuda => "nvcudah264enc"@,
        EncoderType::VaApi => "vah264enc"@,
        EncoderType::Software => "x264enc"@,
    }
}

/// The encoder that has an element of the given name.
pub open spec fn encoder_named(name: Seq<char>) -> Option<EncoderType> {
    if name == "nvh264enc"@ {
        Some(EncoderType::Nvidia)
    } else if name == "nvcudah264enc"@ {
        Some(EncoderType::NvidiaCuda)
    } else if name == "vah264enc"@ {
        Some(EncoderType::VaApi)
    } else if name == "x264enc"@ {
        Some(EncoderType::Software)
    } else {
        None
    }
}

/// The encoders in the order in which they are tried. `nvcudah264enc` comes
/// before `nvh264enc`: it works on every NVIDIA GPU.
pub open spec fn candidates() -> Seq<EncoderType> {
    seq![
        EncoderType::NvidiaCuda,
        EncoderType::Nvidia,
        EncoderType::VaApi,
        EncoderType::Software,
    ]
}

/// The error for a preferred encoder that is not known.
pub open spec fn unknown_encoder(name: Seq<char>) -> Seq<char> {
    "Unknown encoder: "@ + name + ". Use nvh264enc, nvcudah264enc, vah264enc, or x264enc."@
}

/// The encoders to try in turn: the preferred one, where there is one, then all
/// of them. `None` where the preferred one is not known.
pub open spec fn attempts_for(preferred: Option<Seq<char>>) -> Option<Seq<EncoderType>> {
    match preferred {
        None => Some(candidates()),
        Some(name) => match encoder_named(name) {
            Some(encoder) => Some(seq![encoder] + candidates()),
            None => None,
        },
    }
}

/// The first encoder that works. `working[i]` says whether the encoder at `i`
/// could be created; one that was not tried does not count.
pub open spec fn first_working(attempts: Seq<EncoderType>, working: Seq<bool>) -> Option<
    EncoderType,
>
    decreases attempts.len(),
{
    if attempts.len() == 0 || working.len() == 0 {
        None
    } else if working[0] {
        Some(attempts[0])
    } else {
        first_working(attempts.skip(1), working.skip(1))
    }
}

impl EncoderType {
    /// The name of the encoder's element.
    pub fn name(self) -> (r: &'static str)
        ensures
            r@ == element_name(self),
    {
        match self {
            EncoderType::Nvidia => "nvh264enc",
            EncoderType::NvidiaCuda => "nvcudah264enc",
            EncoderType::VaApi => "vah264enc",
            EncoderType::Software => "x264enc",
        }
    }

    /// The encoder that has an element of the given name.
    pub fn named(name: &str) -> (r: Option<EncoderType>)
        ensures
            r == encoder_named(name@),
    {
        if same_text(name, "nvh264enc") {
            Some(EncoderType::Nvidia)
        } else if same_text(name, "nvcudah264enc") {
            Some(EncoderType::NvidiaCuda)
        } else if same_text(name, "vah264enc") {
            Some(EncoderType::VaApi)
        } else if same_text(name, "x264enc") {
            Some(EncoderType::Software)
        } else {
            None
        }
    }
}

/// The encoders to try in turn: the preferred one, where there is one, then all
/// of them.
pub fn encoder_attempts(preferred: Option<&str>) -> (r: Result<Vec<EncoderType>, String>)
    ensures
        match attempts_for(opt_str(preferred)) {
            Some(attempts) => r is Ok && r->Ok_0@ == attempts,
            None => r is Err && r->Err_0@ == unknown_encoder(opt_str(preferred)->0),
        },
        preferred is None ==> r is Ok && r->Ok_0@ == seq![
            EncoderType::NvidiaCuda,
            EncoderType::Nvidia,
            EncoderType::VaApi,
            EncoderType::Software,
        ],
{
    let mut attempts: Vec<EncoderType> = Vec::new();
    if let Some(name) = preferred {
        match EncoderType::named(name) {
            Some(encoder) => {
                attempts.push(encoder);
            },
            None => {
                let mut e: String = "Unknown encoder: ".to_owned();
                e.append(name);
                e.append(". Use nvh264enc, nvcudah264enc, vah264enc, or x264enc.");
                return Err(e);
            },
        }
    }
    attempts.push(EncoderType::NvidiaCuda);
    attempts.push(EncoderType::Nvidia);
    attempts.push(EncoderType::VaApi);
    attempts.push(EncoderType::Software);
    assert(attempts@ =~= attempts_for(opt_str(preferred))->0);
    Ok(attempts)
}

/// The encoder that is used, and its element's name. `working` says of each of
/// the encoders that [`encoder_attempts`] gives, in their order, whether it could
/// be created; it may end after the first that could.
pub fn detect_encoder_type(preferred: Option<&str>, working: &Vec<bool>) -> (r: Result<
    (EncoderType, String),
    String,
>)
    ensures
        match attempts_for(opt_str(preferred)) {
            None => r is Err && r->Err_0@ == unknown_encoder(opt_str(preferred)->0),
            Some(attempts) => match first_working(attempts, working@) {
                Some(encoder) => r is Ok && r->Ok_0.0 == encoder && r->Ok_0.1@ == element_name(
                    encoder,
                ),
                None => r is Err && r->Err_0@ == NO_ENCODER_ERROR@,
            },
        },
        preferred is None && working@.len() >= 4 ==> {
            &&& r is Err <==> !working@[0] && !working@[1] && !working@[2] && !working@[3]
            &&& working@[0] ==> r is Ok && r->Ok_0.0 == EncoderType::NvidiaCuda
            &&& !working@[0] && working@[1] ==> r is Ok && r->Ok_0.0 == EncoderType::Nvidia
            &&& !working@[0] && !working@[1] && working@[2] ==> r is Ok && r->Ok_0.0
                == EncoderType::VaApi
            &&& !working@[0] && !working@[1] && !working@[2] && working@[3] ==> r is Ok
                && r->Ok_0.0 == EncoderType::Software
        },
{
    proof {
        software_is_the_last_resort(working@);
    }
    let attempts: Vec<EncoderType> = match encoder_attempts(preferred) {
        Ok(attempts) => attempts,
        Err(e) => {
            return Err(e);
        },
    };
    let mut i: usize = 0;
    assert(attempts@.skip(0) =~= attempts@);
    assert(working@.skip(0) =~= working@);
    while i < attempts.len() && i < working.len()
        invariant
            i <= attempts@.len(),
            i <= working@.len(),
            attempts_for(opt_str(preferred)) == Some(attempts@),
            first_working(attempts@, working@) == first_working(
                attempts@.skip(i as int),
                working@.skip(i as int),
            ),
        decreases attempts.len() - i,
    {
        if working[i] {
            let encoder: EncoderType = attempts[i];
            proof {
                software_is_the_last_resort(working@);
            }
            return Ok((encoder, encoder.name().to_owned()));
        }
        assert(attempts@.skip(i as int).skip(1) =~= attempts@.skip(i as int + 1));
        assert(working@.skip(i as int).skip(1) =~= working@.skip(i as int + 1));
        i = i + 1;
    }
    Err(NO_ENCODER_ERROR.to_owned())
}

/// An encoder that is reported does work: it was tried, and could be created.
pub proof fn reported_encoder_works(attempts: Seq<EncoderType>, working: Seq<bool>)
    ensures
        match first_working(attempts, working) {
            Some(encoder) => exists|i: int|
                #![trigger attempts[i]]
                0 <= i < attempts.len() && i < working.len() && attempts[i] == encoder && working[i]
                    && forall|k: int| 0 <= k < i ==> !#[trigger] working[k],
            None => forall|i: int|
                0 <= i < attempts.len() && i < working.len() ==> !#[trigger] working[i],
        },
    decreases attempts.len(),
{
    if attempts.len() == 0 || working.len() == 0 {
    } else if working[0] {
        assert(attempts[0] == first_working(attempts, working)->0);
    } else {
        let a = attempts.skip(1);
        let w = working.skip(1);
        reported_encoder_works(a, w);
        match first_working(a, w) {
            Some(encoder) => {
                let i = choose|i: int|
                    #![trigger a[i]]
                    0 <= i < a.len() && i < w.len() && a[i] == encoder && w[i] && forall|k: int|
                        0 <= k < i ==> !#[trigger] w[k];
                assert(attempts[i + 1] == encoder);
                assert forall|k: int| 0 <= k < i + 1 implies !#[trigger] working[k] by {
                    if k > 0 {
                        assert(!w[k - 1]);
                    }
                }
            },
            None => {
                assert forall|i: int| 0 <= i < attempts.len() && i < working.len() implies
                    !#[trigger] working[i] by {
                    if i > 0 {
                        assert(!w[i - 1]);
                    }
                }
            },
        }
    }
}

/// With no preference all four encoders are tried, and Software stands behind the
/// three that use hardware: it is used only where none of them could be created.
/// VA-API in turn is used only where neither way to NVENC could be.
pub proof fn software_is_the_last_resort(working: Seq<bool>)
    ensures
        attempts_for(None) is Some,
        attempts_for(None)->0.len() == 4,
        forall|i: int, k: int|
            #![trigger attempts_for(None)->0[i], attempts_for(None)->0[k]]
            0 <= i < 4 && 0 <= k < 4 && attempts_for(None)->0[i] == EncoderType::Software
                && attempts_for(None)->0[k] != EncoderType::Software ==> k < i,
        forall|encoder: EncoderType| #[trigger] attempts_for(None)->0.contains(encoder),
        forall|i: int|
            0 <= i < 4 && i < working.len() && working[i] && #[trigger] attempts_for(None)->0[i]
                != EncoderType::Software ==> first_working(attempts_for(None)->0, working) is Some
                && first_working(attempts_for(None)->0, working)->0 != EncoderType::Software,
        forall|i: int|
            0 <= i < 4 && i < working.len() && working[i] && (#[trigger] attempts_for(None)->0[i]
                == EncoderType::Nvidia || attempts_for(None)->0[i] == EncoderType::NvidiaCuda)
                ==> (first_working(attempts_for(None)->0, working) == Some(EncoderType::Nvidia)
                || first_working(attempts_for(None)->0, working) == Some(EncoderType::NvidiaCuda)),
        first_working(attempts_for(None)->0, working) == (if working.len() > 0 && working[0] {
            Some(EncoderType::NvidiaCuda)
        } else if working.len() > 1 && working[1] {
            Some(EncoderType::Nvidia)
        } else if working.len() > 2 && working[2] {
            Some(EncoderType::VaApi)
        } else if working.len() > 3 && working[3] {
            Some(EncoderType::Software)
        } else {
            None
        }),
{
    reveal_with_fuel(first_working, 5);
    let attempts = attempts_for(None)->0;
    assert(attempts[0] == EncoderType::NvidiaCuda);
    assert(attempts[1] == EncoderType::Nvidia);
    assert(attempts[2] == EncoderType::VaApi);
    assert(attempts[3] == EncoderType::Software);
    assert forall|encoder: EncoderType| #[trigger] attempts.contains(encoder) by {
        match encoder {
            EncoderType::NvidiaCuda => assert(attempts[0] == encoder),
            EncoderType::Nvidia => assert(attempts[1] == encoder),
            EncoderType::VaApi => assert(attempts[2] == encoder),
            EncoderType::Software => assert(attempts[3] == encoder),
        }
    }
}

/// A preferred encoder is tried first, and behind it all of them are tried in the
/// order that they have with no preference.
pub proof fn preference_goes_in_front(name: Seq<char>)
    ensures
        attempts_for(Some(name)) is Some <==> name == "nvh264enc"@ || name == "nvcudah264enc"@
            || name == "vah264enc"@ || name == "x264enc"@,
        match attempts_for(Some(name)) {
            Some(attempts) => attempts.len() == 5 && attempts.skip(1) == attempts_for(None)->0,
            None => true,
        },
        attempts_for(Some("nvh264enc"@))->0[0] == EncoderType::Nvidia,
        attempts_for(Some("nvcudah264enc"@))->0[0] == EncoderType::NvidiaCuda,
        attempts_for(Some("vah264enc"@))->0[0] == EncoderType::VaApi,
        attempts_for(Some("x264enc"@))->0[0] == EncoderType::Software,
{
    reveal_strlit("nvh264enc");
    reveal_strlit("nvcudah264enc");
    reveal_strlit("vah264enc");
    reveal_strlit("x264enc");
    assert("nvh264enc"@.len() == 9 && "nvcudah264enc"@.len() == 13);
    assert("vah264enc"@[0] == 'v' && "nvh264enc"@[0] == 'n');
    assert("x264enc"@.len() == 7);
    if let Some(attempts) = attempts_for(Some(name)) {
        assert(attempts.skip(1) =~= attempts_for(None)->0);
    }
}

/// A preferred encoder that works is the one that is used.
pub proof fn preference_is_kept(name: Seq<char>, working: Seq<bool>)
    requires
        encoder_named(name) is Some,
        working.len() > 0,
        working[0],
    ensures
        first_working(attempts_for(Some(name))->0, working) == encoder_named(name),
        element_name(encoder_named(name)->0) == name,
{
}

// ---------------------------------------------------------------------------
// The encoder's element
// ---------------------------------------------------------------------------

/// The value of an element's property.
#[derive(Debug, Clone, Copy, PartialEq, Eq)]
pub enum PropertyValue {
    /// A value by its name.
    Named(&'static str),
    Unsigned(u32),
    Signed(i32),
    Flag(bool),
}

/// A property of an element.
#[derive(Debug, Clone, Copy, PartialEq, Eq)]
pub struct Property {
    pub name: &'static str,
    pub value: PropertyValue,
}

/// The value of a property, as plain text and numbers.
pub enum ValueText {
    Named(Seq<char>),
    Unsigned(u32),
    Signed(int),
    Flag(bool),
}

impl View for PropertyValue {
    type V = ValueText;

    open spec fn view(&self) -> ValueText {
        match *self {
            PropertyValue::Named(s) => ValueText::Named(s@),
            PropertyValue::Unsigned(n) => ValueText::Unsigned(n),
            PropertyValue::Signed(n) => ValueText::Signed(n as int),
            PropertyValue::Flag(b) => ValueText::Flag(b),
        }
    }
}

impl View for Property {
    type V = (Seq<char>, ValueText);

    open spec fn view(&self) -> (Seq<char>, ValueText) {
        (self.name@, self.value@)
    }
}

/// The bits that one frame may take at a bitrate.
pub open spec fn bits_per_frame(bitrate: u32, framerate: u32) -> u32 {
    if framerate == 0 {
        bitrate
    } else {
        bitrate / framerate
    }
}

/// The properties of an encoder's element: constant bitrate and the lowest
/// latency that the encoder has.
pub open spec fn encoder_properties(encoder: EncoderType, bitrate: u32, framerate: u32) -> Seq<
    (Seq<char>, ValueText),
> {
    match encoder {
        EncoderType::Nvidia => seq![
            ("preset"@, ValueText::Named("low-latency-hq"@)),
            ("rc-mode"@, ValueText::Named("cbr-ld-hq"@)),
            ("bitrate"@, ValueText::Unsigned(bitrate)),
            ("gop-size"@, ValueText::Signed(i32::MAX as int)),
            ("zerolatency"@, ValueText::Flag(true)),
            ("rc-lookahead"@, ValueText::Unsigned(0)),
            ("bframes"@, ValueText::Unsigned(0)),
            ("strict-gop"@, ValueText::Flag(true)),
            ("qp-max-i"@, ValueText::Signed(20)),
            ("qp-max-p"@, ValueText::Signed(23)),
            ("vbv-buffer-size"@, ValueText::Unsigned(bits_per_frame(bitrate, framerate))),
        ],
        EncoderType::NvidiaCuda => seq![
            ("preset"@, ValueText::Named("low-latency-hq"@)),
            ("rate-control"@, ValueText::Named("cbr"@)),
            ("bitrate"@, ValueText::Unsigned(bitrate)),
            ("gop-size"@, ValueText::Signed(-1)),
            ("zero-reorder-delay"@, ValueText::Flag(true)),
            ("rc-lookahead"@, ValueText::Unsigned(0)),
            ("b-frames"@, ValueText::Unsigned(0)),
            ("vbv-buffer-size"@, ValueText::Unsigned(bits_per_frame(bitrate, framerate))),
        ],
        EncoderType::VaApi => seq![
            ("rate-control"@, ValueText::Named("cbr"@)),
            ("bitrate"@, ValueText::Unsigned(bitrate)),
            ("target-usage"@, ValueText::Unsigned(7)),
            ("key-int-max"@, ValueText::Unsigned(60)),
        ],
        EncoderType::Software => seq![
            ("tune"@, ValueText::Named("zerolatency"@)),
            ("speed-preset"@, ValueText::Named("ultrafast"@)),
            ("bitrate"@, ValueText::Unsigned(bitrate)),
            ("key-int-max"@, ValueText::Unsigned(30)),
            ("bframes"@, ValueText::Unsigned(0)),
        ],
    }
}

/// Whatever encoder is used, it gets the bitrate that is asked for. The two that NVIDIA
/// has, and the software encoder, never put frames out of order. The NVIDIA ones make no
/// keyframes of their own accord, and hold each frame to its share of the bitrate.
pub proof fn encoders_get_the_bitrate(encoder: EncoderType, bitrate: u32, framerate: u32)
    ensures
        encoder_properties(encoder, bitrate, framerate).contains(
            ("bitrate"@, ValueText::Unsigned(bitrate)),
        ),
        encoder == EncoderType::Nvidia || encoder == EncoderType::Software ==> encoder_properties(
            encoder,
            bitrate,
            framerate,
        ).contains(("bframes"@, ValueText::Unsigned(0))),
        encoder == EncoderType::NvidiaCuda ==> encoder_properties(
            encoder,
            bitrate,
            framerate,
        ).contains(("b-frames"@, ValueText::Unsigned(0))),
        encoder == EncoderType::Nvidia ==> encoder_properties(encoder, bitrate, framerate).contains(
            ("gop-size"@, ValueText::Signed(0x7FFF_FFFF)),
        ),
        encoder == EncoderType::NvidiaCuda ==> encoder_properties(
            encoder,
            bitrate,
            framerate,
        ).contains(("gop-size"@, ValueText::Signed(-1))),
        encoder == EncoderType::VaApi ==> encoder_properties(encoder, bitrate, framerate).contains(
            ("key-int-max"@, ValueText::Unsigned(60)),
        ),
        encoder == EncoderType::Software ==> encoder_properties(
            encoder,
            bitrate,
            framerate,
        ).contains(("key-int-max"@, ValueText::Unsigned(30))),
        framerate > 0 ==> bits_per_frame(bitrate, framerate) * framerate <= bitrate < (
        bits_per_frame(bitrate, framerate) + 1) * framerate,
        encoder == EncoderType::Nvidia || encoder == EncoderType::NvidiaCuda ==> exists|share: u32|
            #[trigger] encoder_properties(encoder, bitrate, framerate).contains(
                ("vbv-buffer-size"@, ValueText::Unsigned(share)),
            ) && (framerate > 0 ==> share * framerate <= bitrate < (share + 1) * framerate) && (
            framerate == 0 ==> share == bitrate),
{
    let v = encoder_properties(encoder, bitrate, framerate);
    let share = bits_per_frame(bitrate, framerate);
    if framerate > 0 {
        assert(share * framerate <= bitrate < (share + 1) * framerate) by (nonlinear_arith)
            requires
                framerate > 0,
                share == bitrate as int / framerate as int,
        ;
    }
    match encoder {
        EncoderType::Nvidia => {
            assert(v[2] == ("bitrate"@, ValueText::Unsigned(bitrate)));
            assert(v[3] == ("gop-size"@, ValueText::Signed(0x7FFF_FFFF)));
            assert(v[6] == ("bframes"@, ValueText::Unsigned(0)));
            assert(v[10] == ("vbv-buffer-size"@, ValueText::Unsigned(share)));
            assert(v.contains(("vbv-buffer-size"@, ValueText::Unsigned(share))));
        },
        EncoderType::NvidiaCuda => {
            assert(v[2] == ("bitrate"@, ValueText::Unsigned(bitrate)));
            assert(v[3] == ("gop-size"@, ValueText::Signed(-1)));
            assert(v[6] == ("b-frames"@, ValueText::Unsigned(0)));
            assert(v[7] == ("vbv-buffer-size"@, ValueText::Unsigned(share)));
            assert(v.contains(("vbv-buffer-size"@, ValueText::Unsigned(share))));
        },
        EncoderType::VaApi => {
            assert(v[1] == ("bitrate"@, ValueText::Unsigned(bitrate)));
            assert(v[3] == ("key-int-max"@, ValueText::Unsigned(60)));
        },
        EncoderType::Software => {
            assert(v[2] == ("bitrate"@, ValueText::Unsigned(bitrate)));
            assert(v[3] == ("key-int-max"@, ValueText::Unsigned(30)));
            assert(v[4] == ("bframes"@, ValueText::Unsigned(0)));
        },
    }
}

/// Properties as plain text and numbers.
pub open spec fn property_texts(v: Seq<Property>) -> Seq<(Seq<char>, ValueText)> {
    v.map_values(|p: Property| p@)
}

fn named(v: &mut Vec<Property>, name: &'static str, value: &'static str)
    ensures
        property_texts(final(v)@) == property_texts(old(v)@).push(
            (name@, ValueText::Named(value@)),
        ),
{
    v.push(Property { name, value: PropertyValue::Named(value) });
    assert(property_texts(v@) =~= property_texts(old(v)@).push((name@, ValueText::Named(value@))));
}

fn unsigned(v: &mut Vec<Property>, name: &'static str, value: u32)
    ensures
        property_texts(final(v)@) == property_texts(old(v)@).push(
            (name@, ValueText::Unsigned(value)),
        ),
{
    v.push(Property { name, value: PropertyValue::Unsigned(value) });
    assert(property_texts(v@) =~= property_texts(old(v)@).push(
        (name@, ValueText::Unsigned(value)),
    ));
}

fn signed(v: &mut Vec<Property>, name: &'static str, value: i32)
    ensures
        property_texts(final(v)@) == property_texts(old(v)@).push(
            (name@, ValueText::Signed(value as int)),
        ),
{
    v.push(Property { name, value: PropertyValue::Signed(value) });
    assert(property_texts(v@) =~= property_texts(old(v)@).push(
        (name@, ValueText::Signed(value as int)),
    ));
}

fn flag(v: &mut Vec<Property>, name: &'static str, value: bool)
    ensures
        property_texts(final(v)@) == property_texts(old(v)@).push((name@, ValueText::Flag(value))),
{
    v.push(Property { name, value: PropertyValue::Flag(value) });
    assert(property_texts(v@) =~= property_texts(old(v)@).push((name@, ValueText::Flag(value))));
}

/// The properties that an encoder's element is built with, in order.
pub fn build_encoder_element(encoder: EncoderType, bitrate: u32, framerate: u32) -> (r: Vec<
    Property,
>)
    ensures
        property_texts(r@) == encoder_properties(encoder, bitrate, framerate),
{
    let frame_bits: u32 = if framerate == 0 {
        bitrate
    } else {
        bitrate / framerate
    };
    let mut v: Vec<Property> = Vec::new();
    assert(property_texts(v@) =~= Seq::<(Seq<char>, ValueText)>::empty());
    match encoder {
        EncoderType::Nvidia => {
            named(&mut v, "preset", "low-latency-hq");
            named(&mut v, "rc-mode", "cbr-ld-hq");
            unsigned(&mut v, "bitrate", bitrate);
            signed(&mut v, "gop-size", i32::MAX);
            flag(&mut v, "zerolatency", true);
            unsigned(&mut v, "rc-lookahead", 0);
            unsigned(&mut v, "bframes", 0);
            flag(&mut v, "strict-gop", true);
            signed(&mut v, "qp-max-i", 20);
            signed(&mut v, "qp-max-p", 23);
            unsigned(&mut v, "vbv-buffer-size", frame_bits);
        },
        EncoderType::NvidiaCuda => {
            named(&mut v, "preset", "low-latency-hq");
            named(&mut v, "rate-control", "cbr");
            unsigned(&mut v, "bitrate", bitrate);
            signed(&mut v, "gop-size", -1);
            flag(&mut v, "zero-reorder-delay", true);
            unsigned(&mut v, "rc-lookahead", 0);
            unsigned(&mut v, "b-frames", 0);
            unsigned(&mut v, "vbv-buffer-size", frame_bits);
        },
        EncoderType::VaApi => {
            named(&mut v, "rate-control", "cbr");
            unsigned(&mut v, "bitrate", bitrate);
            unsigned(&mut v, "target-usage", 7);
            unsigned(&mut v, "key-int-max", 60);
        },
        EncoderType::Software => {
            named(&mut v, "tune", "zerolatency");
            named(&mut v, "speed-preset", "ultrafast");
            unsigned(&mut v, "bitrate", bitrate);
            unsigned(&mut v, "key-int-max", 30);
            unsigned(&mut v, "bframes", 0);
        },
    }
    assert(property_texts(v@) =~= encoder_properties(encoder, bitrate, framerate));
    v
}

// ---------------------------------------------------------------------------
// The pipeline
// ---------------------------------------------------------------------------

/// The pixel format that raw frames have on their way into an encoder. The
/// browser refuses what NVIDIA's encoders make of BGRx.
pub open spec fn pixel_format_of(encoder: EncoderType) -> Seq<char> {
    match encoder {
        EncoderType::Nvidia | EncoderType::NvidiaCuda => "BGRA"@,
        _ => "BGRx"@,
    }
}

/// The pixel format that raw frames have on their way into an encoder.
pub fn pixel_format(encoder: EncoderType) -> (r: &'static str)
    ensures
        r@ == pixel_format_of(encoder),
{
    match encoder {
        EncoderType::Nvidia | EncoderType::NvidiaCuda => "BGRA",
        _ => "BGRx",
    }
}

/// How many bytes of raw frames may wait for the encoder: three frames, of four
/// bytes for each pixel. What comes on top is dropped.
pub fn appsrc_queue_max_bytes(width: u32, height: u32) -> (r: u64)
    requires
        width * height * 12 <= u64::MAX,
    ensures
        r == width * height * 12,
{
    assert(0 <= width * height <= u64::MAX) by (nonlinear_arith)
        requires
            width >= 0,
            height >= 0,
            width * height * 12 <= u64::MAX,
    ;
    width as u64 * height as u64 * 12
}

/// A stage of the pipeline.
#[derive(Debug, Clone, Copy, PartialEq, Eq, Structural)]
pub enum Stage {
    /// Takes raw frames.
    Source,
    /// Converts the pixel format.
    Convert,
    /// The encoder's element.
    Encode,
    /// Holds the encoder to the main profile.
    ProfileFilter,
    /// Puts SPS and PPS before every keyframe.
    Parse,
    /// Holds the stream to Annex B with whole access units.
    StreamFilter,
    /// Hands the encoded frames out.
    Sink,
}

/// The stages of an encoder's pipeline, in order. `nvh264enc` converts pixels by
/// itself.
pub open spec fn stages_for(encoder: EncoderType) -> Seq<Stage> {
    let tail = seq![
        Stage::Encode,
        Stage::ProfileFilter,
        Stage::Parse,
        Stage::StreamFilter,
        Stage::Sink,
    ];
    if encoder == EncoderType::Nvidia {
        seq![Stage::Source] + tail
    } else {
        seq![Stage::Source, Stage::Convert] + tail
    }
}

/// Every pipeline takes raw frames at its start and hands encoded ones out at its end.
/// Between them, each encoder has its profile filter, its parser and its stream filter
/// behind it, in this order. Only `nvh264enc` goes without a conversion before it. Frames
/// have an alpha channel for NVIDIA's encoders alone.
pub proof fn pipelines_have_one_shape(encoder: EncoderType)
    ensures
        ({
            let stages = stages_for(encoder);
            let n = stages.len() as int;
            &&& n == if encoder == EncoderType::Nvidia {
                6int
            } else {
                7int
            }
            &&& stages[0] == Stage::Source
            &&& stages.contains(Stage::Convert) <==> encoder != EncoderType::Nvidia
            &&& encoder != EncoderType::Nvidia ==> stages[1] == Stage::Convert
            &&& stages[n - 5] == Stage::Encode
            &&& stages[n - 4] == Stage::ProfileFilter
            &&& stages[n - 3] == Stage::Parse
            &&& stages[n - 2] == Stage::StreamFilter
            &&& stages[n - 1] == Stage::Sink
        }),
        encoder == EncoderType::Nvidia || encoder == EncoderType::NvidiaCuda ==> pixel_format_of(
            encoder,
        ) == "BGRA"@,
        encoder == EncoderType::VaApi || encoder == EncoderType::Software ==> pixel_format_of(
            encoder,
        ) == "BGRx"@,
{
    let stages = stages_for(encoder);
    if encoder != EncoderType::Nvidia {
        assert(stages[1] == Stage::Convert);
    }
}

/// The pipeline of an encoder, as it is to be built.
#[derive(Debug, Clone)]
pub struct Encoder {
    pub encoder_type: EncoderType,
    /// The name of the encoder's element.
    pub name: String,
    pub width: u32,
    pub height: u32,
    pub framerate: u32,
    /// The pixel format of raw frames.
    pub format: &'static str,
    /// How many bytes of raw frames may wait.
    pub max_bytes: u64,
    /// The properties of the encoder's element.
    pub properties: Vec<Property>,
    pub stages: Vec<Stage>,
}

/// What came when the pipeline was asked for an encoded frame.
#[derive(Debug, Clone, PartialEq, Eq)]
pub enum Pulled {
    Frame(Vec<u8>),
    Empty,
    Disconnected,
}

impl Encoder {
    /// The pipeline for frames of the given size and rate. `working` says which
    /// encoders could be created, as for [`detect_encoder_type`].
    pub fn with_encoder_preference(
        width: u32,
        height: u32,
        framerate: u32,
        bitrate: u32,
        preferred_encoder: Option<&str>,
        working: &Vec<bool>,
    ) -> (r: Result<Self, String>)
        requires
            (attempts_for(opt_str(preferred_encoder)) is Some && first_working(
                attempts_for(opt_str(preferred_encoder))->0,
                working@,
            ) is Some) ==> width * height * 4 <= u32::MAX,
        ensures
            match attempts_for(opt_str(preferred_encoder)) {
                None => r is Err && r->Err_0@ == unknown_encoder(opt_str(preferred_encoder)->0),
                Some(attempts) => match first_working(attempts, working@) {
                    None => r is Err && r->Err_0@ == NO_ENCODER_ERROR@,
                    Some(encoder) => {
                        &&& r is Ok
                        &&& r->Ok_0.encoder_type == encoder
                        &&& r->Ok_0.name@ == element_name(encoder)
                        &&& r->Ok_0.width == width
                        &&& r->Ok_0.height == height
                        &&& r->Ok_0.framerate == framerate
                        &&& r->Ok_0.format@ == pixel_format_of(encoder)
                        &&& r->Ok_0.max_bytes == width * height * 12
                        &&& property_texts(r->Ok_0.properties@) == encoder_properties(
                            encoder,
                            bitrate,
                            framerate,
                        )
                        &&& r->Ok_0.stages@ == stages_for(encoder)
                    },
                },
            },
    {
        let (encoder_type, name) = match detect_encoder_type(preferred_encoder, working) {
            Ok(found) => found,
            Err(e) => {
                return Err(e);
            },
        };
        let mut stages: Vec<Stage> = Vec::new();
        stages.push(Stage::Source);
        if encoder_type != EncoderType::Nvidia {
            stages.push(Stage::Convert);
        }
        stages.push(Stage::Encode);
        stages.push(Stage::ProfileFilter);
        stages.push(Stage::Parse);
        stages.push(Stage::StreamFilter);
        stages.push(Stage::Sink);
        assert(stages@ =~= stages_for(encoder_type));
        Ok(
            Encoder {
                encoder_type,
                name,
                width,
                height,
                framerate,
                format: pixel_format(encoder_type),
                max_bytes: appsrc_queue_max_bytes(width, height),
                properties: build_encoder_element(encoder_type, bitrate, framerate),
                stages,
            },
        )
    }

    /// The next encoded frame, where there is one.
    pub fn pull_encoded(pulled: Pulled) -> (r: Result<Option<Vec<u8>>, String>)
        ensures
            match pulled {
                Pulled::Frame(data) => r == Ok::<Option<Vec<u8>>, String>(Some(data)),
                Pulled::Empty => r == Ok::<Option<Vec<u8>>, String>(None),
                Pulled::Disconnected => r is Err && r->Err_0@ == DISCONNECTED_ERROR@,
            },
    {
        match pulled {
            Pulled::Frame(data) => Ok(Some(data)),
            Pulled::Empty => Ok(None),
            Pulled::Disconnected => Err(DISCONNECTED_ERROR.to_owned()),
        }
    }
}

} // verus!
