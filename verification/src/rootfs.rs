//! The execution boundary of an embedded root filesystem: what shows that it
//! was entered, the filter that keeps it closed, and the steps that set it up.

use vstd::prelude::*;
use vstd::slice::slice_subrange;

use crate::process::{find_line, line_with};
use crate::text::{chars_of, eq_str_chars, split_words, texts, trim, trim_slice, words};

verus! {

/// The variable that names the image a process runs in.
pub const ACTIVE_ENV: &'static str = "O_EMBEDDED_ROOTFS_IMAGE";

/// Why a process is not where it claims to be.
#[derive(Clone, Copy, Debug, PartialEq, Eq, Structural)]
pub enum RootfsError {
    /// The image is another one.
    ImageMismatch,
    /// More than one identity is mapped into the namespace, or none.
    Identities,
    /// What the process may do cannot be told.
    NoCapabilities,
    /// What the process may do is not a number.
    BadCapabilities,
    /// The process may still do something.
    Capabilities,
    /// The process may still gain privileges.
    Privileges,
}

impl RootfsError {
    pub fn to_text(self) -> (text: &'static str)
        ensures
            text@ == (match self {
                RootfsError::ImageMismatch => "rootfs activation does not match the embedded image"@,
                RootfsError::Identities => "rootfs entry requires a single-identity user namespace"@,
                RootfsError::NoCapabilities => "rootfs process capability status is unavailable"@,
                RootfsError::BadCapabilities => "rootfs process capability status is invalid"@,
                RootfsError::Capabilities => "rootfs entry retained process capabilities"@,
                RootfsError::Privileges => "rootfs entry requires no_new_privs"@,
            }),
    {
        match self {
            RootfsError::ImageMismatch => "rootfs activation does not match the embedded image",
            RootfsError::Identities => "rootfs entry requires a single-identity user namespace",
            RootfsError::NoCapabilities => "rootfs process capability status is unavailable",
            RootfsError::BadCapabilities => "rootfs process capability status is invalid",
            RootfsError::Capabilities => "rootfs entry retained process capabilities",
            RootfsError::Privileges => "rootfs entry requires no_new_privs",
        }
    }
}

/// What the system says of a process that claims to run inside an image.
#[derive(Debug)]
pub struct ActiveEvidence {
    /// The image that the process was told of.
    pub claimed: String,
    /// The image that the root filesystem says it is.
    pub stored: String,
    pub uid_map: String,
    pub gid_map: String,
    pub status: String,
    pub no_new_privileges: i32,
}

/// The value of a hexadecimal digit.
pub open spec fn hex_value(c: char) -> Option<nat> {
    if '0' <= c && c <= '9' {
        Some((c as u32 - '0' as u32) as nat)
    } else if 'a' <= c && c <= 'f' {
        Some((c as u32 - 'a' as u32 + 10) as nat)
    } else if 'A' <= c && c <= 'F' {
        Some((c as u32 - 'A' as u32 + 10) as nat)
    } else {
        None
    }
}

/// The number that hexadecimal digits spell.
pub open spec fn hex_digits(s: Seq<char>) -> Option<nat>
    decreases s.len(),
{
    if s.len() == 0 {
        Some(0)
    } else {
        match (hex_digits(s.drop_last()), hex_value(s.last())) {
            (Some(high), Some(low)) => Some(16 * high + low),
            _ => None,
        }
    }
}

/// The number below 2^64 that a hexadecimal text gives; a plus may stand in
/// front.
pub open spec fn hex_number(s: Seq<char>) -> Option<u64> {
    let digits = if s.len() > 0 && s[0] == '+' {
        s.skip(1)
    } else {
        s
    };
    if digits.len() == 0 {
        None
    } else {
        match hex_digits(digits) {
            Some(n) => if n <= u64::MAX {
                Some(n as u64)
            } else {
                None
            },
            None => None,
        }
    }
}

fn hex_digit_value(c: char) -> (r: Option<u64>)
    ensures
        match r {
            Some(n) => hex_value(c) == Some(n as nat) && n < 16,
            None => hex_value(c) is None,
        },
{
    if '0' <= c && c <= '9' {
        Some(c as u64 - '0' as u64)
    } else if 'a' <= c && c <= 'f' {
        Some(c as u64 - 'a' as u64 + 10)
    } else if 'A' <= c && c <= 'F' {
        Some(c as u64 - 'A' as u64 + 10)
    } else {
        None
    }
}

proof fn lemma_hex_prefix(s: Seq<char>, i: int)
    requires
        0 <= i <= s.len(),
    ensures
        hex_digits(s.take(i)) is None ==> hex_digits(s) is None,
        hex_digits(s) is Some ==> hex_digits(s.take(i)) is Some && hex_digits(s.take(i))->Some_0
            <= hex_digits(s)->Some_0,
    decreases s.len(),
{
    if i == s.len() {
        assert(s.take(i) =~= s);
    } else {
        lemma_hex_prefix(s.drop_last(), i);
        assert(s.drop_last().take(i) =~= s.take(i));
    }
}

/// Reads a hexadecimal number below 2^64.
pub fn parse_hex(s: &[char]) -> (r: Option<u64>)
    ensures
        r == hex_number(s@),
{
    let n: usize = s.len();
    let from: usize = if n > 0 && s[0] == '+' {
        1
    } else {
        0
    };
    let digits = slice_subrange(s, from, n);
    assert(s@.skip(0) =~= s@);
    assert(digits@ =~= s@.skip(from as int));
    if digits.len() == 0 {
        return None;
    }
    let mut value: u64 = 0;
    let mut i: usize = 0;
    assert(hex_digits(digits@.take(0)) == Some(0nat));
    while i < digits.len()
        invariant
            hex_number(s@) == (match hex_digits(digits@) {
                Some(n) => if n <= u64::MAX {
                    Some(n as u64)
                } else {
                    None
                },
                None => None,
            }),
            i <= digits@.len(),
            hex_digits(digits@.take(i as int)) == Some(value as nat),
        decreases digits@.len() - i,
    {
        assert(digits@.take(i + 1).drop_last() =~= digits@.take(i as int));
        assert(digits@.take(i + 1).last() == digits@[i as int]);
        proof {
            lemma_hex_prefix(digits@, i + 1);
        }
        match hex_digit_value(digits[i]) {
            Some(low) => {
                if value > (u64::MAX - low) / 16 {
                    assert(16 * value + low > u64::MAX);
                    return None;
                }
                value = 16 * value + low;
            },
            None => {
                return None;
            },
        }
        i += 1;
    }
    assert(digits@.take(i as int) =~= digits@);
    Some(value)
}

/// Whether a map of identities holds one identity, as number 0.
pub open spec fn single_identity(map: Seq<char>) -> bool {
    let fields = words(map);
    fields.len() == 3 && fields[0] == "0"@ && fields[2] == "1"@
}

fn one_identity(map: &str) -> (r: bool)
    ensures
        r == single_identity(map@),
{
    let fields = split_words(chars_of(map).as_slice());
    let ghost all = texts(fields@);
    assert(all.len() == fields@.len());
    if fields.len() != 3 {
        return false;
    }
    assert(all[0] == fields@[0]@ && all[2] == fields@[2]@);
    eq_str_chars("0", fields[0].as_slice()) && eq_str_chars("1", fields[2].as_slice())
}

/// What one set of capabilities in a process status comes down to: nothing, if
/// it is empty.
pub open spec fn capability_fault(status: Seq<char>, field: Seq<char>) -> Option<RootfsError> {
    match line_with(status, field) {
        None => Some(RootfsError::NoCapabilities),
        Some(line) => match hex_number(trim(line.skip(field.len() as int))) {
            None => Some(RootfsError::BadCapabilities),
            Some(n) => if n != 0 {
                Some(RootfsError::Capabilities)
            } else {
                None
            },
        },
    }
}

/// The sets of capabilities that have to be empty.
pub open spec fn capability_fields() -> Seq<Seq<char>> {
    seq!["CapInh:"@, "CapPrm:"@, "CapEff:"@, "CapBnd:"@, "CapAmb:"@]
}

/// What is wrong with the first of some sets of capabilities that is not empty.
pub open spec fn first_capability_fault(status: Seq<char>, fields: Seq<Seq<char>>) -> Option<
    RootfsError,
>
    decreases fields.len(),
{
    if fields.len() == 0 {
        None
    } else {
        match capability_fault(status, fields[0]) {
            Some(fault) => Some(fault),
            None => first_capability_fault(status, fields.skip(1)),
        }
    }
}

fn check_capability(status: &str, field: &str) -> (r: Option<RootfsError>)
    ensures
        r == capability_fault(status@, field@),
{
    let chars = chars_of(status);
    let prefix = chars_of(field);
    match find_line(chars.as_slice(), prefix.as_slice()) {
        None => Some(RootfsError::NoCapabilities),
        Some(line) => {
            let n: usize = line.len();
            let rest = slice_subrange(line, prefix.len(), n);
            assert(rest@ =~= line@.skip(field@.len() as int));
            match parse_hex(trim_slice(rest)) {
                None => Some(RootfsError::BadCapabilities),
                Some(value) => if value != 0 {
                    Some(RootfsError::Capabilities)
                } else {
                    None
                },
            }
        },
    }
}

/// What is wrong with the evidence of a process inside an image, if anything is.
pub open spec fn evidence_fault(image: Seq<char>, e: ActiveEvidence) -> Option<RootfsError> {
    if e.claimed@ != image || e.stored@ != image {
        Some(RootfsError::ImageMismatch)
    } else if !single_identity(e.uid_map@) || !single_identity(e.gid_map@) {
        Some(RootfsError::Identities)
    } else {
        match first_capability_fault(e.status@, capability_fields()) {
            Some(fault) => Some(fault),
            None => if e.no_new_privileges != 1 {
                Some(RootfsError::Privileges)
            } else {
                None
            },
        }
    }
}

/// Whether a process runs inside an image. One that claims so has to show it;
/// one that does not claim so does not.
pub fn verify_active(image: &str, evidence: Option<&ActiveEvidence>) -> (r: Result<
    bool,
    RootfsError,
>)
    ensures
        match evidence {
            None => r == Ok::<bool, RootfsError>(false),
            Some(e) => match evidence_fault(image@, *e) {
                Some(fault) => r == Err::<bool, RootfsError>(fault),
                None => r == Ok::<bool, RootfsError>(true),
            },
        },
{
    let e = match evidence {
        None => {
            return Ok(false);
        },
        Some(e) => e,
    };
    if *e.claimed.as_str() != *image || *e.stored.as_str() != *image {
        return Err(RootfsError::ImageMismatch);
    }
    if !one_identity(e.uid_map.as_str()) || !one_identity(e.gid_map.as_str()) {
        return Err(RootfsError::Identities);
    }
    let fields: [&'static str; 5] = ["CapInh:", "CapPrm:", "CapEff:", "CapBnd:", "CapAmb:"];
    let ghost all = capability_fields();
    let mut i: usize = 0;
    assert(all.skip(0) =~= all);
    while i < 5
        invariant
            i <= 5,
            all == capability_fields(),
            fields@.len() == 5,
            forall|k: int| 0 <= k < 5 ==> (#[trigger] fields@[k])@ == all[k],
            first_capability_fault(e.status@, all) == first_capability_fault(
                e.status@,
                all.skip(i as int),
            ),
            evidence == Some(e),
            e.claimed@ == image@ && e.stored@ == image@,
            single_identity(e.uid_map@) && single_identity(e.gid_map@),
        decreases 5 - i,
    {
        assert(all.skip(i as int)[0] == all[i as int]);
        assert(all.skip(i as int).skip(1) =~= all.skip(i + 1));
        match check_capability(e.status.as_str(), fields[i]) {
            Some(fault) => {
                return Err(fault);
            },
            None => {},
        }
        i += 1;
    }
    assert(all.skip(5).len() == 0);
    if e.no_new_privileges != 1 {
        return Err(RootfsError::Privileges);
    }
    Ok(true)
}

/// Without a claim nothing counts as evidence, and a claim without every piece
/// of evidence is refused.
pub proof fn only_proven_processes_are_active(image: Seq<char>, e: ActiveEvidence)
    requires
        evidence_fault(image, e) is None,
    ensures
        e.claimed@ == image,
        e.stored@ == image,
        e.no_new_privileges == 1,
        forall|k: int|
            0 <= k < 5 ==> capability_fault(e.status@, #[trigger] capability_fields()[k]) is None,
{
    let all = capability_fields();
    assert(first_capability_fault(e.status@, all) is None);
    let a = all.skip(1);
    let b = a.skip(1);
    let c = b.skip(1);
    let d = c.skip(1);
    assert(a[0] == all[1] && b[0] == all[2] && c[0] == all[3] && d[0] == all[4]);
    assert(first_capability_fault(e.status@, a) is None);
    assert(first_capability_fault(e.status@, b) is None);
    assert(first_capability_fault(e.status@, c) is None);
    assert(first_capability_fault(e.status@, d) is None);
}

} // verus!
