//! Absolute domain names, held in uncompressed wire format.
//!
//! A name is a chain of labels, each a length octet followed by that many
//! octets, closed by the empty root label. Names compare without regard to
//! ASCII case.

use vstd::prelude::*;
use vstd::slice::*;

verus! {

/// The longest a name may be on the wire, root label included.
pub const MAX_NAME_LEN: usize = 255;

/// The longest a single label may be.
pub const MAX_LABEL_LEN: usize = 63;

/// Whether `w` is a chain of non-empty labels of at most 63 octets, closed by
/// the root label, with nothing after it.
pub open spec fn is_label_chain(w: Seq<u8>) -> bool
    decreases w.len(),
{
    if w.len() == 0 {
        false
    } else if w[0] == 0 {
        w.len() == 1
    } else {
        w[0] <= 63 && w.len() > 1 + w[0] && is_label_chain(w.skip(1 + w[0] as int))
    }
}

/// Whether `w` is an absolute domain name in wire format.
pub open spec fn is_name(w: Seq<u8>) -> bool {
    w.len() <= 255 && is_label_chain(w)
}

/// Whether the name is the root label alone.
pub open spec fn name_is_root(w: Seq<u8>) -> bool {
    w.len() <= 1
}

/// The name without its first label; the root has no parent.
pub open spec fn name_parent(w: Seq<u8>) -> Option<Seq<u8>> {
    if name_is_root(w) {
        None
    } else {
        Some(w.skip(1 + w[0] as int))
    }
}

/// The name `w` with `label` put in front of it.
pub open spec fn name_with_label(label: Seq<u8>, w: Seq<u8>) -> Seq<u8> {
    seq![label.len() as u8] + label + w
}

/// An octet with an ASCII capital letter folded to its small letter.
pub open spec fn ascii_lower(b: u8) -> u8 {
    if 0x41 <= b <= 0x5a {
        (b + 0x20) as u8
    } else {
        b
    }
}

/// Equality of names: octet by octet, ignoring ASCII case.
pub open spec fn name_eq(a: Seq<u8>, b: Seq<u8>) -> bool {
    a.len() == b.len() && forall|i: int| 0 <= i < a.len() ==> ascii_lower(a[i]) == ascii_lower(b[i])
}

/// Whether `s` equals `w` or what is left of `w` after dropping some of its
/// leading labels.
pub open spec fn name_has_suffix(w: Seq<u8>, s: Seq<u8>) -> bool
    decreases w.len(),
{
    name_eq(w, s) || (w.len() > 1 + w[0] && w[0] != 0 && name_has_suffix(
        w.skip(1 + w[0] as int),
        s,
    ))
}

/// Whether the first label of `w` is exactly `label`.
pub open spec fn name_starts_with_label(w: Seq<u8>, label: Seq<u8>) -> bool {
    w.len() > label.len() && w[0] == label.len() && w.subrange(1, 1 + label.len() as int) == label
}

/// The character of a decimal digit.
pub open spec fn decimal_char(d: u8) -> char {
    ((0x30 + d) as u8) as char
}

/// An octet of a label as it is written: a space, a dot and a backslash
/// after a backslash; an octet that is no printable ASCII character as a
/// backslash and its three decimal digits; any other as the character
/// itself.
pub open spec fn octet_text(b: u8) -> Seq<char> {
    if b == 0x20 || b == 0x2e || b == 0x5c {
        seq!['\\', b as char]
    } else if b < 0x20 || b >= 0x7f {
        seq!['\\', decimal_char(b / 100), decimal_char((b / 10) % 10), decimal_char(b % 10)]
    } else {
        seq![b as char]
    }
}

/// A label as it is written: its octets one after another.
pub open spec fn label_text(label: Seq<u8>) -> Seq<char>
    decreases label.len(),
{
    if label.len() == 0 {
        Seq::empty()
    } else {
        label_text(label.drop_last()) + octet_text(label.last())
    }
}

/// The labels of a name as they are written, the root label left out, with
/// dots between them.
pub open spec fn labels_text(w: Seq<u8>) -> Seq<char>
    decreases w.len(),
{
    if w.len() == 0 || w[0] == 0 || w.len() <= 1 + w[0] {
        Seq::empty()
    } else {
        let label = label_text(w.subrange(1, 1 + w[0] as int));
        let rest = w.skip(1 + w[0] as int);
        if rest[0] == 0 {
            label
        } else {
            label + seq!['.'] + labels_text(rest)
        }
    }
}

/// The presentation form of a name: its labels separated by dots, without
/// the trailing dot; the root alone is a dot.
pub open spec fn name_text(wire: Seq<u8>) -> Seq<char> {
    if name_is_root(wire) {
        seq!['.']
    } else {
        labels_text(wire)
    }
}

/// The name that `domain` reads from a presentation form, if it reads one.
pub uninterp spec fn name_from_text(text: Seq<char>) -> Option<Seq<u8>>;

/// Formats a name through `domain::base::Dname`'s `Display`. The contract
/// claims what that writes: the labels but the root, each octet as
/// `Label`'s `Display` writes it, with dots between them; and a single dot
/// for the root.
#[verifier::external_body]
fn dname_to_string(wire: &[u8]) -> (text: String)
    requires
        is_name(wire@),
    ensures
        text@ == name_text(wire@),
{
    match domain::base::Dname::from_octets(wire) {
        Ok(name) => name.to_string(),
        Err(_) => String::new(),
    }
}

/// Reads a name through `domain::base::Dname::vec_from_str`. The contract
/// names the outcome and claims that what is read is an absolute name in
/// wire format, which is what a `Dname` holds.
#[verifier::external_body]
fn dname_from_str(text: &str) -> (wire: Option<Vec<u8>>)
    ensures
        match wire {
            Some(w) => name_from_text(text@) == Some(w@) && is_name(w@),
            None => name_from_text(text@) is None,
        },
{
    domain::base::Dname::vec_from_str(text).ok().map(|name| name.into_octets())
}

/// Dropping the first label of a name leaves a name.
pub proof fn lemma_parent_is_name(w: Seq<u8>)
    requires
        is_name(w),
        !name_is_root(w),
    ensures
        is_name(name_parent(w)->0),
        name_parent(w)->0.len() < w.len(),
        w[0] != 0,
{
}

/// Name equality is reflexive.
pub proof fn lemma_name_eq_refl(w: Seq<u8>)
    ensures
        name_eq(w, w),
{
}

/// An absolute domain name.
#[derive(Debug)]
pub struct DomainName {
    wire: Vec<u8>,
}

impl View for DomainName {
    type V = Seq<u8>;

    closed spec fn view(&self) -> Seq<u8> {
        self.wire@
    }
}

impl DomainName {
    /// What holds of every name: its octets are an absolute name in wire
    /// format.
    #[verifier::type_invariant]
    pub closed spec fn wf(self) -> bool {
        is_name(self.wire@)
    }

    /// The root name.
    pub fn root() -> (name: DomainName)
        ensures
            name@ == seq![0u8],
    {
        let mut wire: Vec<u8> = Vec::new();
        wire.push(0);
        assert(is_label_chain(wire@));
        DomainName { wire }
    }

    /// The name that `wire` holds, if it is an absolute name in wire format.
    pub fn from_wire(wire: Vec<u8>) -> (name: Option<DomainName>)
        ensures
            name is Some <==> is_name(wire@),
            name matches Some(n) ==> n@ == wire@,
    {
        let len = wire.len();
        if len == 0 || len > MAX_NAME_LEN {
            return None;
        }
        let mut at: usize = 0;
        assert(wire@.skip(0) =~= wire@);
        loop
            invariant
                len == wire@.len(),
                0 < len <= 255,
                at < len,
                is_label_chain(wire@) == is_label_chain(wire@.skip(at as int)),
            decreases len - at,
        {
            let size = wire[at];
            let ghost rest = wire@.skip(at as int);
            assert(rest[0] == size);
            if size == 0 {
                if at + 1 == len {
                    return Some(DomainName { wire });
                }
                return None;
            }
            if size > 63 || at + 1 + size as usize >= len {
                return None;
            }
            assert(rest.skip(1 + size as int) == wire@.skip(at + 1 + size as int));
            at = at + 1 + size as usize;
        }
    }

    /// The name that `wire` is known to hold.
    pub(crate) fn from_name_wire(wire: Vec<u8>) -> (name: DomainName)
        requires
            is_name(wire@),
        ensures
            name@ == wire@,
    {
        DomainName { wire }
    }

    /// The name in wire format.
    pub fn as_wire(&self) -> (wire: &[u8])
        ensures
            wire@ == self@,
            is_name(self@),
    {
        proof {
            use_type_invariant(self);
        }
        self.wire.as_slice()
    }

    /// A copy of the name.
    pub fn clone_name(&self) -> (name: DomainName)
        ensures
            name@ == self@,
    {
        proof {
            use_type_invariant(self);
        }
        DomainName { wire: self.wire.clone() }
    }

    /// Reads a name from its presentation form, as `domain` reads it: labels
    /// separated by dots, an absolute name whether or not it ends in a dot.
    pub fn vec_from_str(text: &str) -> (name: Option<DomainName>)
        ensures
            match name {
                Some(n) => name_from_text(text@) == Some(n@),
                None => name_from_text(text@) is None,
            },
    {
        match dname_from_str(text) {
            Some(wire) => Some(DomainName { wire }),
            None => None,
        }
    }

    /// The presentation form of the name.
    pub fn to_text(&self) -> (text: String)
        ensures
            text@ == name_text(self@),
    {
        proof {
            use_type_invariant(self);
        }
        dname_to_string(self.wire.as_slice())
    }

    /// Whether this is the root name.
    pub fn is_root(&self) -> (b: bool)
        ensures
            b == name_is_root(self@),
    {
        self.wire.len() <= 1
    }

    /// The name without its first label, or `None` for the root.
    pub fn parent(&self) -> (parent: Option<DomainName>)
        ensures
            match parent {
                Some(p) => name_parent(self@) == Some(p@),
                None => name_parent(self@) is None,
            },
    {
        proof {
            use_type_invariant(self);
        }
        let len = self.wire.len();
        if len <= 1 {
            return None;
        }
        proof {
            lemma_parent_is_name(self.wire@);
        }
        let skip = 1 + self.wire[0] as usize;
        let tail = slice_to_vec(slice_subrange(self.wire.as_slice(), skip, len));
        assert(tail@ == self.wire@.skip(skip as int));
        Some(DomainName { wire: tail })
    }

    /// Whether the two names are equal, ignoring ASCII case.
    pub fn eq_ignore_case(&self, other: &DomainName) -> (b: bool)
        ensures
            b == name_eq(self@, other@),
    {
        octets_eq_ignore_case(self.wire.as_slice(), 0, other.wire.as_slice())
    }

    /// Whether the first label of the name is exactly `label`.
    pub fn starts_with_label(&self, label: &[u8]) -> (b: bool)
        ensures
            b == name_starts_with_label(self@, label@),
    {
        let n = label.len();
        if self.wire.len() <= n || self.wire[0] as usize != n {
            return false;
        }
        let mut i: usize = 0;
        while i < n
            invariant
                i <= n,
                n == label@.len(),
                n < self.wire@.len(),
                forall|j: int| 0 <= j < i ==> self.wire@[1 + j] == label@[j],
            decreases n - i,
        {
            if self.wire[1 + i] != label[i] {
                assert(self.wire@.subrange(1, 1 + n as int)[i as int] != label@[i as int]);
                return false;
            }
            i = i + 1;
        }
        assert(self.wire@.subrange(1, 1 + n as int) =~= label@);
        true
    }

    /// The name with `label` put in front, or `None` if the label is empty or
    /// longer than 63 octets, or the name would grow beyond 255 octets.
    pub fn with_label(&self, label: &[u8]) -> (name: Option<DomainName>)
        ensures
            name is Some <==> (1 <= label@.len() <= 63 && 1 + label@.len() + self@.len() <= 255),
            name matches Some(n) ==> n@ == name_with_label(label@, self@),
    {
        proof {
            use_type_invariant(self);
        }
        let n = label.len();
        if n == 0 || n > MAX_LABEL_LEN || 1 + n + self.wire.len() > MAX_NAME_LEN {
            return None;
        }
        let mut wire: Vec<u8> = Vec::new();
        wire.push(n as u8);
        wire.extend_from_slice(label);
        wire.extend_from_slice(self.wire.as_slice());
        proof {
            let joined = name_with_label(label@, self@);
            assert(wire@ =~= joined);
            assert(joined.skip(1 + joined[0] as int) =~= self.wire@);
        }
        Some(DomainName { wire })
    }

    /// The name with a label of the single octet `symbol` put in front, or
    /// `None` if the name would grow beyond 255 octets.
    pub fn with_symbol(&self, symbol: u8) -> (name: Option<DomainName>)
        ensures
            name is Some <==> 2 + self@.len() <= 255,
            name matches Some(n) ==> n@ == name_with_label(seq![symbol], self@),
    {
        let mut label: Vec<u8> = Vec::new();
        label.push(symbol);
        assert(label@ =~= seq![symbol]);
        self.with_label(label.as_slice())
    }

    /// Whether `suffix` equals this name or what is left of it after dropping
    /// some of its leading labels.
    pub fn has_suffix(&self, suffix: &DomainName) -> (b: bool)
        ensures
            b == name_has_suffix(self@, suffix@),
    {
        proof {
            use_type_invariant(self);
        }
        let len = self.wire.len();
        let mut at: usize = 0;
        assert(self.wire@.skip(0) =~= self.wire@);
        loop
            invariant
                len == self.wire@.len(),
                at < len,
                is_name(self.wire@.skip(at as int)),
                name_has_suffix(self.wire@, suffix.wire@) == name_has_suffix(
                    self.wire@.skip(at as int),
                    suffix.wire@,
                ),
            decreases len - at,
        {
            let ghost rest = self.wire@.skip(at as int);
            if octets_eq_ignore_case(self.wire.as_slice(), at, suffix.wire.as_slice()) {
                return true;
            }
            let size = self.wire[at];
            assert(rest[0] == size);
            if size == 0 {
                return false;
            }
            assert(rest.skip(1 + size as int) == self.wire@.skip(at + 1 + size as int));
            at = at + 1 + size as usize;
        }
    }
}

/// Whether `a`, from index `from` on, equals `b` ignoring ASCII case.
fn octets_eq_ignore_case(a: &[u8], from: usize, b: &[u8]) -> (same: bool)
    requires
        from <= a@.len(),
    ensures
        same == name_eq(a@.skip(from as int), b@),
{
    let n = b.len();
    if a.len() - from != n {
        return false;
    }
    let ghost rest = a@.skip(from as int);
    let mut i: usize = 0;
    while i < n
        invariant
            i <= n,
            n == b@.len(),
            from + n == a@.len(),
            a@.len() <= usize::MAX,
            rest == a@.skip(from as int),
            forall|j: int| 0 <= j < i ==> ascii_lower(rest[j]) == ascii_lower(b@[j]),
        decreases n - i,
    {
        if lower(a[from + i]) != lower(b[i]) {
            assert(rest[i as int] == a@[from + i]);
            return false;
        }
        assert(rest[i as int] == a@[from + i]);
        i = i + 1;
    }
    true
}

/// Folds an ASCII capital letter to its small letter.
fn lower(b: u8) -> (l: u8)
    ensures
        l == ascii_lower(b),
{
    if 0x41 <= b && b <= 0x5a {
        b + 0x20
    } else {
        b
    }
}

} // verus!
