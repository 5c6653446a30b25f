//! What an action carries: a colour, a line of subtitles, an audio file
//! name, a MIDI preset, and the text of an error report.

use vstd::prelude::*;
use crate::text::BoundedString;

verus! {

/// Longest subtitle line, in bytes.
pub const SUBTITLES_CAP: usize = 50;

/// Longest audio file name, in bytes.
pub const FILE_NAME_CAP: usize = 50;

/// Longest audio file extension, in bytes.
pub const FILE_EXTENSION_CAP: usize = 4;

/// Longest error description, in bytes.
pub const ERROR_DESCRIPTION_CAP: usize = 100;

/// Highest MIDI preset: 128 banks of 128 programs.
pub const PRESET_MAX: u16 = 16384;

/// A colour as red, green and blue intensities.
#[derive(Clone, Copy, Debug, PartialEq, Eq, Structural)]
pub struct ColourRgb {
    pub r: u8,
    pub g: u8,
    pub b: u8,
}

impl ColourRgb {
    /// The colour with the given intensities.
    pub fn new(red: u8, green: u8, blue: u8) -> (c: Self)
        ensures
            c == (ColourRgb { r: red, g: green, b: blue }),
    {
        Self { r: red, g: green, b: blue }
    }
}

/// One line of subtitles.
#[derive(Clone, Copy, Debug, PartialEq, Eq)]
pub struct Subtitles {
    pub subtitles: BoundedString<50>,
}

impl Subtitles {
    /// Validity: that of the text.
    pub open spec fn wf(self) -> bool {
        self.subtitles.wf()
    }

    /// The subtitles with the given text, unless it is longer than 50 bytes.
    pub fn new(text: &str) -> (r: Option<Self>)
        ensures
            r is Some <==> vstd::utf8::encode_utf8(text@).len() <= 50,
            r matches Some(s) ==> s.wf() && s.subtitles@ == vstd::utf8::encode_utf8(text@),
    {
        match BoundedString::<50>::from_str(text) {
            Some(subtitles) => Some(Subtitles { subtitles }),
            None => None,
        }
    }
}

/// An audio file to play, as a name and an extension.
#[derive(Clone, Copy, Debug, PartialEq, Eq)]
pub struct AudioFile {
    pub file_name: BoundedString<50>,
    pub file_extension: BoundedString<4>,
}

impl AudioFile {
    /// Validity: that of the name and the extension.
    pub open spec fn wf(self) -> bool {
        self.file_name.wf() && self.file_extension.wf()
    }

    /// The audio file with the given name and extension, unless the name is
    /// longer than 50 bytes or the extension longer than 4.
    pub fn new(file_name: &str, file_extension: &str) -> (r: Option<Self>)
        ensures
            r is Some <==> vstd::utf8::encode_utf8(file_name@).len() <= 50
                && vstd::utf8::encode_utf8(file_extension@).len() <= 4,
            r matches Some(a) ==> a.wf() && a.file_name@ == vstd::utf8::encode_utf8(file_name@)
                && a.file_extension@ == vstd::utf8::encode_utf8(file_extension@),
    {
        match BoundedString::<50>::from_str(file_name) {
            Some(name) => match BoundedString::<4>::from_str(file_extension) {
                Some(extension) => Some(AudioFile { file_name: name, file_extension: extension }),
                None => None,
            },
            None => None,
        }
    }

    /// The file name as it stands on disk: name, a dot, extension.
    pub open spec fn full_name(self) -> Seq<u8> {
        self.file_name@ + seq![0x2eu8] + self.file_extension@
    }

    /// Name and extension joined by a dot.
    pub fn file_name_with_extension(&self) -> (r: BoundedString<55>)
        ensures
            r.wf(),
            r@ == self.full_name(),
    {
        let mut joined = self.file_name.as_bytes();
        joined.push(0x2e);
        let mut extension = self.file_extension.as_bytes();
        joined.append(&mut extension);
        proof {
            assert(joined@ =~= self.full_name());
            self.file_name.lemma_wf_fits();
            self.file_extension.lemma_wf_fits();
            lemma_dot_is_utf8();
            vstd::utf8::valid_utf8_concat(self.file_name@, seq![0x2eu8]);
            vstd::utf8::valid_utf8_concat(self.file_name@ + seq![0x2eu8], self.file_extension@);
        }
        match BoundedString::<55>::from_bytes(joined.as_slice()) {
            Some(r) => r,
            None => BoundedString::<55>::new(),
        }
    }
}

proof fn lemma_dot_is_utf8()
    ensures
        vstd::utf8::valid_utf8(seq![0x2eu8]),
{
    let s = seq![0x2eu8];
    assert(0x2eu8 & 0x80 == 0) by (bit_vector);
    reveal_with_fuel(vstd::utf8::valid_utf8, 2);
    assert(vstd::utf8::pop_first_scalar(s) =~= Seq::<u8>::empty());
}

/// The text of an error report.
#[derive(Clone, Copy, Debug, PartialEq, Eq)]
pub struct ErrorDescription {
    pub error_descr: BoundedString<100>,
}

impl ErrorDescription {
    /// Validity: that of the text.
    pub open spec fn wf(self) -> bool {
        self.error_descr.wf()
    }

    /// The description with the given text, unless it is longer than 100
    /// bytes.
    pub fn new(text: &str) -> (r: Option<Self>)
        ensures
            r is Some <==> vstd::utf8::encode_utf8(text@).len() <= 100,
            r matches Some(d) ==> d.wf() && d.error_descr@ == vstd::utf8::encode_utf8(text@),
    {
        match BoundedString::<100>::from_str(text) {
            Some(error_descr) => Some(ErrorDescription { error_descr }),
            None => None,
        }
    }
}

/// A MIDI preset as musicians count them: from 1 to 16384.
#[derive(Clone, Copy, Debug, PartialEq, Eq)]
pub struct PresetIndex {
    value: u16,
}

impl PresetIndex {
    /// Validity: the preset lies between 1 and 16384.
    #[verifier::type_invariant]
    pub closed spec fn wf(self) -> bool {
        1 <= self.value <= 16384
    }

    /// The number of the preset.
    pub closed spec fn number(self) -> int {
        self.value as int
    }

    /// The valid preset with the given number.
    pub closed spec fn of(n: int) -> Self {
        PresetIndex { value: n as u16 }
    }

    /// A preset is valid exactly when its number is in range, and a valid
    /// one is the preset of its number.
    pub proof fn lemma_wf(self)
        ensures
            self.wf() <==> 1 <= self.number() <= 16384,
            self.wf() ==> Self::of(self.number()) == self,
    {
    }

    /// The preset with the given number: `Some` exactly from 1 to 16384.
    pub fn new(number: u16) -> (r: Option<Self>)
        ensures
            r is Some <==> 1 <= number <= 16384,
            r matches Some(p) ==> p.wf() && p.number() == number && p == Self::of(number as int),
    {
        if 1 <= number && number <= PRESET_MAX {
            Some(PresetIndex { value: number })
        } else {
            None
        }
    }

    /// The number of the preset.
    pub fn get(&self) -> (n: u16)
        ensures
            n == self.number(),
            1 <= n <= 16384,
            self.wf(),
    {
        proof {
            use_type_invariant(self);
        }
        self.value
    }
}

} // verus!
