use vstd::prelude::*;

verus! {

/// The field delimiter of the wire format.
pub const DELIMITER: char = ':';

/// True when `s` holds no delimiter, so it can stand as a leading field.
pub open spec fn delimiter_free(s: Seq<char>) -> bool {
    forall|k: int| 0 <= k < s.len() ==> s[k] != ':'
}

/// The wire text `id:name:body`.
pub open spec fn frame_of(id: Seq<char>, name: Seq<char>, body: Seq<char>) -> Seq<char> {
    id + seq![':'] + name + seq![':'] + body
}

/// True when `t` is the frame of the three fields and the two leading ones
/// hold no delimiter (which makes the split unique).
pub open spec fn is_frame(t: Seq<char>, id: Seq<char>, name: Seq<char>, body: Seq<char>) -> bool {
    &&& delimiter_free(id)
    &&& delimiter_free(name)
    &&& t == frame_of(id, name, body)
}

/// True when `t` splits into three fields on its first two delimiters.
pub open spec fn has_three_fields(t: Seq<char>) -> bool {
    exists|id: Seq<char>, name: Seq<char>, body: Seq<char>| is_frame(t, id, name, body)
}

/// The mathematical value of an envelope.
pub struct EnvelopeModel {
    pub sender_id: Seq<char>,
    pub sender_name: Seq<char>,
    pub body: Seq<char>,
}

/// The unit exchanged between sessions and topics: who sent it, and what.
#[derive(Debug)]
pub struct Envelope {
    pub sender_id: String,
    pub sender_name: String,
    pub body: String,
}

impl View for Envelope {
    type V = EnvelopeModel;

    open spec fn view(&self) -> EnvelopeModel {
        EnvelopeModel { sender_id: self.sender_id@, sender_name: self.sender_name@, body: self.body@ }
    }
}

impl EnvelopeModel {
    /// The envelope can travel over the wire and come back unchanged.
    pub open spec fn is_wire_safe(self) -> bool {
        delimiter_free(self.sender_id) && delimiter_free(self.sender_name)
    }

    pub open spec fn frame(self) -> Seq<char> {
        frame_of(self.sender_id, self.sender_name, self.body)
    }
}

/// Splitting a frame on its first two delimiters is unique.
pub proof fn lemma_frame_unique(
    t: Seq<char>,
    a: Seq<char>,
    b: Seq<char>,
    c: Seq<char>,
    a2: Seq<char>,
    b2: Seq<char>,
    c2: Seq<char>,
)
    requires
        is_frame(t, a, b, c),
        is_frame(t, a2, b2, c2),
    ensures
        a == a2,
        b == b2,
        c == c2,
{
    if a.len() < a2.len() {
        assert(t[a.len() as int] == ':');
        assert(a2[a.len() as int] == t[a.len() as int]);
    } else if a2.len() < a.len() {
        assert(t[a2.len() as int] == ':');
        assert(a[a2.len() as int] == t[a2.len() as int]);
    }
    assert(a.len() == a2.len());
    assert(a =~= t.subrange(0, a.len() as int));
    assert(a2 =~= t.subrange(0, a.len() as int));
    let s: int = a.len() as int + 1;
    if b.len() < b2.len() {
        assert(t[s + b.len()] == ':');
        assert(b2[b.len() as int] == t[s + b.len()]);
    } else if b2.len() < b.len() {
        assert(t[s + b2.len()] == ':');
        assert(b[b2.len() as int] == t[s + b2.len()]);
    }
    assert(b.len() == b2.len());
    assert(b =~= t.subrange(s, s + b.len()));
    assert(b2 =~= t.subrange(s, s + b.len()));
    let u: int = s + b.len() + 1;
    assert(c =~= t.subrange(u, t.len() as int));
    assert(c2 =~= t.subrange(u, t.len() as int));
}

/// Index of the first delimiter at or after `from`, or the length when none.
fn find_delimiter(t: &str, from: usize, n: usize) -> (r: usize)
    requires
        n == t@.len(),
        from <= n,
    ensures
        from <= r <= n,
        forall|k: int| from <= k < r ==> t@[k] != ':',
        r < n ==> t@[r as int] == ':',
{
    let mut k: usize = from;
    while k < n
        invariant
            from <= k <= n,
            n == t@.len(),
            forall|j: int| from <= j < k ==> t@[j] != ':',
        decreases n - k,
    {
        if t.get_char(k) == DELIMITER {
            return k;
        }
        k = k + 1;
    }
    k
}

impl Envelope {
    /// A copy of this envelope.
    pub fn duplicate(&self) -> (r: Envelope)
        ensures
            r@ == self@,
    {
        Envelope {
            sender_id: self.sender_id.clone(),
            sender_name: self.sender_name.clone(),
            body: self.body.clone(),
        }
    }

    /// Reads a wire frame `id:name:body`, split on the first two delimiters;
    /// the body keeps any further delimiters. A frame with fewer than two
    /// delimiters is malformed and gives `None`.
    pub fn parse(t: &str) -> (r: Option<Envelope>)
        ensures
            r is Some <==> has_three_fields(t@),
            r matches Some(e) ==> is_frame(t@, e.sender_id@, e.sender_name@, e.body@),
    {
        let n = t.unicode_len();
        let i = find_delimiter(t, 0, n);
        if i == n {
            proof {
                if has_three_fields(t@) {
                    let (a, b, c) = choose|a: Seq<char>, b: Seq<char>, c: Seq<char>|
                        is_frame(t@, a, b, c);
                    assert(t@[a.len() as int] == ':');
                }
            }
            return None;
        }
        let j = find_delimiter(t, i + 1, n);
        if j == n {
            proof {
                if has_three_fields(t@) {
                    let (a, b, c) = choose|a: Seq<char>, b: Seq<char>, c: Seq<char>|
                        is_frame(t@, a, b, c);
                    let al = a.len() as int;
                    if al < i {
                        assert(t@[al] == ':');
                    } else if al > i {
                        assert(a[i as int] == t@[i as int]);
                    }
                    assert(t@[al + 1 + b.len()] == ':');
                }
            }
            return None;
        }
        let id = t.substring_char(0, i);
        let name = t.substring_char(i + 1, j);
        let body = t.substring_char(j + 1, n);
        let e = Envelope {
            sender_id: id.to_string(),
            sender_name: name.to_string(),
            body: body.to_string(),
        };
        proof {
            assert(t@ =~= frame_of(id@, name@, body@));
            assert(is_frame(t@, id@, name@, body@));
        }
        Some(e)
    }

    /// The wire frame `id:name:body`.
    pub fn encode(&self) -> (r: String)
        ensures
            r@ == self@.frame(),
    {
        let delim = ":";
        proof {
            reveal_strlit(":");
        }
        let mut s = self.sender_id.clone();
        s.append(delim);
        s.append(self.sender_name.as_str());
        s.append(delim);
        s.append(self.body.as_str());
        proof {
            assert(s@ =~= self@.frame());
        }
        s
    }
}

/// Encoding a wire-safe envelope and reading the frame back gives the same
/// envelope.
pub proof fn lemma_wire_round_trip(e: EnvelopeModel, parsed: EnvelopeModel)
    requires
        e.is_wire_safe(),
        is_frame(e.frame(), parsed.sender_id, parsed.sender_name, parsed.body),
    ensures
        parsed == e,
        has_three_fields(e.frame()),
{
    lemma_frame_unique(
        e.frame(),
        e.sender_id,
        e.sender_name,
        e.body,
        parsed.sender_id,
        parsed.sender_name,
        parsed.body,
    );
}

} // verus!
