//! The envelope of a stream: what precedes the records, what follows them and
//! what separates them.

use vstd::prelude::*;
use vstd::string::StringSliceAdditionalSpecFns;
use vstd::utf8::encode_utf8;
use vstd::utf8::encode_utf8_decode_utf8;

verus! {

/// A named set of defaults for the envelope.
#[derive(Clone, Copy, Debug, PartialEq, Eq, Structural)]
pub enum Profile {
    /// One record per line, nothing before the first or after the last.
    Jsonl,
    /// Records inside `[` and `]`, each on its own line, separated by commas.
    Wikidump,
}

/// The bytes `[`, line feed.
pub open spec fn wikidump_prefix() -> Seq<u8> {
    seq![0x5bu8, 0x0au8]
}

/// The bytes line feed, `]`.
pub open spec fn wikidump_suffix() -> Seq<u8> {
    seq![0x0au8, 0x5du8]
}

/// The bytes `,`, line feed.
pub open spec fn wikidump_delimiter() -> Seq<u8> {
    seq![0x2cu8, 0x0au8]
}

/// The single byte line feed.
pub open spec fn line_feed() -> Seq<u8> {
    seq![0x0au8]
}

/// Prefix, suffix and delimiter as byte sequences.
pub struct EnvelopeView {
    pub prefix: Seq<u8>,
    pub suffix: Seq<u8>,
    pub delimiter: Seq<u8>,
}

/// The envelope that a profile stands for.
pub open spec fn profile_defaults(profile: Profile) -> EnvelopeView {
    match profile {
        Profile::Jsonl => EnvelopeView {
            prefix: Seq::empty(),
            suffix: Seq::empty(),
            delimiter: line_feed(),
        },
        Profile::Wikidump => EnvelopeView {
            prefix: wikidump_prefix(),
            suffix: wikidump_suffix(),
            delimiter: wikidump_delimiter(),
        },
    }
}

/// The profile that a name stands for: `jsonl` when no name is given.
pub open spec fn profile_named(name: Option<Seq<char>>) -> Option<Profile> {
    match name {
        None => Some(Profile::Jsonl),
        Some(n) => if n == "jsonl"@ {
            Some(Profile::Jsonl)
        } else if n == "wikidump"@ {
            Some(Profile::Wikidump)
        } else {
            None
        },
    }
}

/// The envelope of `profile` with each part replaced by its override, where
/// one is given.
pub open spec fn resolved(
    profile: Profile,
    prefix: Option<Seq<u8>>,
    suffix: Option<Seq<u8>>,
    delimiter: Option<Seq<u8>>,
) -> EnvelopeView {
    let base = profile_defaults(profile);
    EnvelopeView {
        prefix: match prefix {
            Some(p) => p,
            None => base.prefix,
        },
        suffix: match suffix {
            Some(s) => s,
            None => base.suffix,
        },
        delimiter: match delimiter {
            Some(d) => d,
            None => base.delimiter,
        },
    }
}

/// The bytes of an override, where one is given.
pub open spec fn bytes_of(part: Option<Vec<u8>>) -> Option<Seq<u8>> {
    match part {
        Some(b) => Some(b@),
        None => None,
    }
}

fn same_text(a: &str, b: &str) -> (same: bool)
    ensures
        same == (a@ == b@),
{
    let x = a.as_bytes();
    let y = b.as_bytes();
    proof {
        encode_utf8_decode_utf8(a@);
        encode_utf8_decode_utf8(b@);
    }
    if x.len() != y.len() {
        return false;
    }
    let mut i: usize = 0;
    while i < x.len()
        invariant
            x@ == encode_utf8(a@),
            y@ == encode_utf8(b@),
            x@.len() == y@.len(),
            i <= x@.len(),
            forall|j: int| 0 <= j < i ==> x@[j] == y@[j],
        decreases x@.len() - i,
    {
        if x[i] != y[i] {
            return false;
        }
        i += 1;
    }
    assert(x@ =~= y@);
    true
}

impl Profile {
    /// Looks a profile up by its name. With no name the profile is `jsonl`;
    /// a name other than `jsonl` and `wikidump` stands for no profile.
    pub fn from_name(name: Option<&str>) -> (profile: Option<Profile>)
        ensures
            profile == profile_named(
                match name {
                    Some(n) => Some(n@),
                    None => None,
                },
            ),
    {
        match name {
            None => Some(Profile::Jsonl),
            Some(n) => {
                if same_text(n, "jsonl") {
                    Some(Profile::Jsonl)
                } else if same_text(n, "wikidump") {
                    Some(Profile::Wikidump)
                } else {
                    None
                }
            },
        }
    }

    /// Whether a batch of records of this profile is handed to the
    /// transformer inside `[` and `]`.
    pub fn wraps_as_array(&self) -> (wrap: bool)
        ensures
            wrap == (*self == Profile::Wikidump),
    {
        match self {
            Profile::Jsonl => false,
            Profile::Wikidump => true,
        }
    }
}

/// Prefix, suffix and delimiter of a stream. The delimiter is never empty.
#[derive(Debug)]
pub struct EnvelopeConfig {
    prefix: Vec<u8>,
    suffix: Vec<u8>,
    delimiter: Vec<u8>,
}

impl View for EnvelopeConfig {
    type V = EnvelopeView;

    closed spec fn view(&self) -> EnvelopeView {
        EnvelopeView { prefix: self.prefix@, suffix: self.suffix@, delimiter: self.delimiter@ }
    }
}

impl EnvelopeConfig {
    #[verifier::type_invariant]
    spec fn delimiter_is_not_empty(&self) -> bool {
        self.delimiter@.len() > 0
    }

    /// Resolves the envelope of `profile` with the overrides given. There is
    /// no envelope with an empty delimiter.
    pub fn resolve(
        profile: Profile,
        prefix: Option<Vec<u8>>,
        suffix: Option<Vec<u8>>,
        delimiter: Option<Vec<u8>>,
    ) -> (config: Option<EnvelopeConfig>)
        ensures
            match config {
                Some(c) => {
                    &&& c@ == resolved(
                        profile,
                        bytes_of(prefix),
                        bytes_of(suffix),
                        bytes_of(delimiter),
                    )
                    &&& c@.delimiter.len() > 0
                },
                None => delimiter matches Some(d) && d@.len() == 0,
            },
    {
        let ghost want = resolved(profile, bytes_of(prefix), bytes_of(suffix), bytes_of(delimiter));
        let p: Vec<u8> = match prefix {
            Some(p) => p,
            None => match profile {
                Profile::Jsonl => Vec::new(),
                Profile::Wikidump => vec![0x5bu8, 0x0au8],
            },
        };
        let s: Vec<u8> = match suffix {
            Some(s) => s,
            None => match profile {
                Profile::Jsonl => Vec::new(),
                Profile::Wikidump => vec![0x0au8, 0x5du8],
            },
        };
        let d: Vec<u8> = match delimiter {
            Some(d) => d,
            None => match profile {
                Profile::Jsonl => vec![0x0au8],
                Profile::Wikidump => vec![0x2cu8, 0x0au8],
            },
        };
        if d.len() == 0 {
            return None;
        }
        proof {
            assert(p@ =~= want.prefix);
            assert(s@ =~= want.suffix);
            assert(d@ =~= want.delimiter);
        }
        Some(EnvelopeConfig { prefix: p, suffix: s, delimiter: d })
    }

    /// The bytes that precede the first record.
    pub fn prefix(&self) -> (bytes: &[u8])
        ensures
            bytes@ == self@.prefix,
    {
        self.prefix.as_slice()
    }

    /// The bytes that follow the last record.
    pub fn suffix(&self) -> (bytes: &[u8])
        ensures
            bytes@ == self@.suffix,
    {
        self.suffix.as_slice()
    }

    /// The bytes that separate two records. There is at least one.
    pub fn delimiter(&self) -> (bytes: &[u8])
        ensures
            bytes@ == self@.delimiter,
            bytes@.len() > 0,
    {
        proof {
            use_type_invariant(self);
        }
        self.delimiter.as_slice()
    }
}

} // verus!
