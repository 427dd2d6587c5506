//! Framing of clipboard contents as bytes, and the change detection that
//! decides when a clipboard read is worth sending.
use vstd::prelude::*;
use vstd::string::StrSliceExecFns;
use vstd::utf8::encode_utf8;


verus! {

/// The number that the first eight bytes spell, most significant first.
pub open spec fn be_value(b: Seq<u8>) -> int {
    ((((((b[0] as int * 256 + b[1] as int) * 256 + b[2] as int) * 256 + b[3] as int) * 256
        + b[4] as int) * 256 + b[5] as int) * 256 + b[6] as int) * 256 + b[7] as int
}

/// Byte `k` (counted from the least significant) of `n`.
pub open spec fn byte_of(n: int, k: int) -> u8 {
    ((n / pow256(k)) % 256) as u8
}

/// `256` to the power `k`.
pub open spec fn pow256(k: int) -> int
    decreases k,
{
    if k <= 0 {
        1
    } else {
        256 * pow256(k - 1)
    }
}

/// The eight bytes of `n`, most significant first.
pub open spec fn be_bytes(n: int) -> Seq<u8> {
    seq![
        byte_of(n, 7),
        byte_of(n, 6),
        byte_of(n, 5),
        byte_of(n, 4),
        byte_of(n, 3),
        byte_of(n, 2),
        byte_of(n, 1),
        byte_of(n, 0),
    ]
}

/// Reads the first eight bytes as a number, most significant first.
pub fn bytes_to_u64(bytes: Vec<u8>) -> (r: u64)
    requires
        bytes@.len() >= 8,
    ensures
        r as int == be_value(bytes@),
{
    let mut r: u64 = bytes[0] as u64;
    r = r * 256 + bytes[1] as u64;
    r = r * 256 + bytes[2] as u64;
    r = r * 256 + bytes[3] as u64;
    r = r * 256 + bytes[4] as u64;
    r = r * 256 + bytes[5] as u64;
    r = r * 256 + bytes[6] as u64;
    r = r * 256 + bytes[7] as u64;
    r
}

/// The bytes of a number spell it back.
pub proof fn lemma_be_round_trip(n: u64)
    ensures
        be_value(be_bytes(n as int)) == n,
        be_bytes(n as int).len() == 8,
{
    reveal_with_fuel(pow256, 8);
    let x = n as int;
    let q1 = x / 256;
    let q2 = q1 / 256;
    let q3 = q2 / 256;
    let q4 = q3 / 256;
    let q5 = q4 / 256;
    let q6 = q5 / 256;
    let q7 = q6 / 256;
    assert(q2 == x / 0x10000);
    assert(q3 == x / 0x1000000);
    assert(q4 == x / 0x100000000);
    assert(q5 == x / 0x10000000000);
    assert(q6 == x / 0x1000000000000);
    assert(q7 == x / 0x100000000000000);
    assert(q7 < 256);
    assert(x == q1 * 256 + x % 256);
    assert(q1 == q2 * 256 + q1 % 256);
    assert(q2 == q3 * 256 + q2 % 256);
    assert(q3 == q4 * 256 + q3 % 256);
    assert(q4 == q5 * 256 + q4 % 256);
    assert(q5 == q6 * 256 + q5 % 256);
    assert(q6 == q7 * 256 + q6 % 256);
}

/// The eight bytes of `num`, most significant first.
pub fn u64_to_bytes(num: u64) -> (r: Vec<u8>)
    ensures
        r@ == be_bytes(num as int),
{
    proof {
        reveal_with_fuel(pow256, 8);
    }
    let r = vec![
        ((num / 0x100000000000000) % 256) as u8,
        ((num / 0x1000000000000) % 256) as u8,
        ((num / 0x10000000000) % 256) as u8,
        ((num / 0x100000000) % 256) as u8,
        ((num / 0x1000000) % 256) as u8,
        ((num / 0x10000) % 256) as u8,
        ((num / 0x100) % 256) as u8,
        (num % 256) as u8,
    ];
    assert(r@ =~= be_bytes(num as int));
    r
}

/// An image as the clipboard holds it: its size and its pixel bytes.
pub struct ImageFrame {
    pub width: usize,
    pub height: usize,
    pub bytes: Vec<u8>,
}

/// The frame of an image: height and width in eight bytes each, then the
/// pixel bytes.
pub open spec fn encode_frame(height: int, width: int, bytes: Seq<u8>) -> Seq<u8> {
    be_bytes(height) + be_bytes(width) + bytes
}

/// The height that a frame spells.
pub open spec fn frame_height(f: Seq<u8>) -> int {
    be_value(f.subrange(0, 8))
}

/// The width that a frame spells.
pub open spec fn frame_width(f: Seq<u8>) -> int {
    be_value(f.subrange(8, 16))
}

/// The pixel bytes of a frame.
pub open spec fn frame_content(f: Seq<u8>) -> Seq<u8> {
    f.subrange(16, f.len() as int)
}

/// Framing an image and reading the frame back gives the image again.
pub proof fn lemma_frame_round_trip(height: u64, width: u64, bytes: Seq<u8>)
    ensures
        frame_height(encode_frame(height as int, width as int, bytes)) == height,
        frame_width(encode_frame(height as int, width as int, bytes)) == width,
        frame_content(encode_frame(height as int, width as int, bytes)) == bytes,
        encode_frame(height as int, width as int, bytes).len() == 16 + bytes.len(),
{
    lemma_be_round_trip(height);
    lemma_be_round_trip(width);
    let f = encode_frame(height as int, width as int, bytes);
    assert(f.subrange(0, 8) =~= be_bytes(height as int));
    assert(f.subrange(8, 16) =~= be_bytes(width as int));
    assert(f.subrange(16, f.len() as int) =~= bytes);
}

/// Appends the bytes of `src` to `dst`.
fn push_all(dst: &mut Vec<u8>, src: &Vec<u8>)
    ensures
        final(dst)@ == old(dst)@ + src@,
{
    let mut i: usize = 0;
    while i < src.len()
        invariant
            i <= src.len(),
            dst@ == old(dst)@ + src@.subrange(0, i as int),
        decreases src.len() - i,
    {
        dst.push(src[i]);
        i = i + 1;
    }
    assert(src@.subrange(0, src@.len() as int) =~= src@);
}

/// Frames an image.
pub fn serialize_image(img: &ImageFrame) -> (r: Vec<u8>)
    ensures
        r@ == encode_frame(img.height as int, img.width as int, img.bytes@),
{
    let mut header = u64_to_bytes(img.height as u64);
    let width = u64_to_bytes(img.width as u64);
    push_all(&mut header, &width);
    push_all(&mut header, &img.bytes);
    header
}

/// Reads an image back from its frame.
pub fn deserialize_image(bts: Vec<u8>) -> (r: ImageFrame)
    requires
        bts@.len() >= 16,
    ensures
        r.height as int == frame_height(bts@) as usize as int,
        r.width as int == frame_width(bts@) as usize as int,
        r.bytes@ == frame_content(bts@),
{
    let mut head: Vec<u8> = Vec::new();
    let mut mid: Vec<u8> = Vec::new();
    let mut rest: Vec<u8> = Vec::new();
    let mut i: usize = 0;
    while i < bts.len()
        invariant
            i <= bts@.len(),
            bts@.len() >= 16,
            head@ == bts@.subrange(0, if i < 8 { i as int } else { 8 }),
            mid@ == bts@.subrange(8, if i < 8 { 8 } else if i < 16 { i as int } else { 16 }),
            rest@ == bts@.subrange(16, if i < 16 { 16 } else { i as int }),
        decreases bts@.len() - i,
    {
        if i < 8 {
            head.push(bts[i]);
        } else if i < 16 {
            mid.push(bts[i]);
        } else {
            rest.push(bts[i]);
        }
        i = i + 1;
    }
    let height = bytes_to_u64(head);
    let width = bytes_to_u64(mid);
    ImageFrame { width: width as usize, height: height as usize, bytes: rest }
}

/// The bytes of `s`, as UTF-8.
fn text_bytes(s: &String) -> (r: Vec<u8>)
    ensures
        r@ == encode_utf8(s@),
{
    let b = s.as_str().as_bytes();
    let mut r: Vec<u8> = Vec::new();
    let mut i: usize = 0;
    while i < b.len()
        invariant
            i <= b@.len(),
            b@ == encode_utf8(s@),
            r@ == b@.subrange(0, i as int),
        decreases b@.len() - i,
    {
        r.push(b[i]);
        i = i + 1;
    }
    assert(r@ =~= b@);
    r
}

/// Whether two byte strings are equal.
fn same_bytes(a: &Vec<u8>, b: &Vec<u8>) -> (r: bool)
    ensures
        r == (a@ == b@),
{
    if a.len() != b.len() {
        return false;
    }
    let mut i: usize = 0;
    while i < a.len()
        invariant
            i <= a@.len(),
            a@.len() == b@.len(),
            a@.subrange(0, i as int) == b@.subrange(0, i as int),
        decreases a@.len() - i,
    {
        if a[i] != b[i] {
            assert(a@[i as int] != b@[i as int]);
            return false;
        }
        assert(a@.subrange(0, i + 1) =~= a@.subrange(0, i as int).push(a@[i as int]));
        assert(b@.subrange(0, i + 1) =~= b@.subrange(0, i as int).push(b@[i as int]));
        i = i + 1;
    }
    assert(a@ =~= a@.subrange(0, i as int));
    assert(b@ =~= b@.subrange(0, i as int));
    true
}

/// Remembers what was last sent from the clipboard, and decides whether a
/// new read is news. Reading the clipboard is left to the caller.
pub struct ClipListener {
    stopped: bool,
    last_image: Vec<u8>,
    last_text: Vec<u8>,
}

/// What a listener holds: whether it was stopped, the frame of the image
/// last sent, and the bytes of the text last sent.
pub struct ListenerView {
    pub stopped: bool,
    pub last_image: Seq<u8>,
    pub last_text: Seq<u8>,
}

impl View for ClipListener {
    type V = ListenerView;

    closed spec fn view(&self) -> ListenerView {
        ListenerView {
            stopped: self.stopped,
            last_image: self.last_image@,
            last_text: self.last_text@,
        }
    }
}

impl ClipListener {
    /// A running listener that has sent nothing: the last image is the empty
    /// one, the last text is empty.
    pub fn new() -> (r: ClipListener)
        ensures
            !r@.stopped,
            r@.last_image == encode_frame(0, 0, Seq::empty()),
            r@.last_text.len() == 0,
    {
        let zero = ImageFrame { width: 0, height: 0, bytes: Vec::new() };
        ClipListener { stopped: false, last_image: serialize_image(&zero), last_text: Vec::new() }
    }

    /// Asks the watch loop to end.
    pub fn stop(&mut self)
        ensures
            final(self)@ == (ListenerView { stopped: true, ..old(self)@ }),
    {
        self.stopped = true;
    }

    /// Whether the watch loop should end.
    pub fn is_stopped(&self) -> (r: bool)
        ensures
            r == self@.stopped,
    {
        self.stopped
    }

    /// Decides whether a text read is news; `read` is `None` where the
    /// clipboard could not be read. A failed read forgets the last text; an
    /// empty text, or one equal to the last one sent, is not news. News is
    /// returned and becomes the last text.
    pub fn get_text_change(&mut self, read: Option<String>) -> (r: Option<String>)
        ensures
            final(self)@.stopped == old(self)@.stopped,
            final(self)@.last_image == old(self)@.last_image,
            read is None ==> r is None && final(self)@.last_text.len() == 0,
            read matches Some(t) ==> (t@.len() == 0 ==> r is None && final(self)@.last_text
                == old(self)@.last_text),
            read matches Some(t) ==> (t@.len() != 0 && encode_utf8(t@) == old(self)@.last_text
                ==> r is None && final(self)@.last_text == old(self)@.last_text),
            read matches Some(t) ==> (t@.len() != 0 && encode_utf8(t@) != old(self)@.last_text
                ==> (r matches Some(s) && s@ == t@ && final(self)@.last_text == encode_utf8(t@))),
    {
        match read {
            None => {
                self.last_text = Vec::new();
                None
            },
            Some(t) => {
                if t.as_str().unicode_len() == 0 {
                    return None;
                }
                let raw = text_bytes(&t);
                if same_bytes(&raw, &self.last_text) {
                    None
                } else {
                    self.last_text = raw;
                    Some(t)
                }
            },
        }
    }

    /// Decides whether an image read is news, as `get_text_change` does for
    /// text. A failed read resets the last image to the frame of the empty
    /// one; an image of width zero is not news and keeps the last image.
    pub fn get_image_change(&mut self, read: Option<ImageFrame>) -> (r: Option<ImageFrame>)
        ensures
            final(self)@.stopped == old(self)@.stopped,
            final(self)@.last_text == old(self)@.last_text,
            read is None ==> r is None && final(self)@.last_image == encode_frame(
                0,
                0,
                Seq::empty(),
            ),
            read matches Some(img) ==> (img.width == 0 ==> r is None
                && final(self)@.last_image == old(self)@.last_image),
            read matches Some(img) ==> (img.width != 0 && encode_frame(
                img.height as int,
                img.width as int,
                img.bytes@,
            ) == old(self)@.last_image ==> r is None && final(self)@.last_image == old(
                self,
            )@.last_image),
            read matches Some(img) ==> (img.width != 0 && encode_frame(
                img.height as int,
                img.width as int,
                img.bytes@,
            ) != old(self)@.last_image ==> (r matches Some(i) && i.width == img.width && i.height
                == img.height && i.bytes@ == img.bytes@ && final(self)@.last_image
                == encode_frame(img.height as int, img.width as int, img.bytes@))),
    {
        match read {
            None => {
                let zero = ImageFrame { width: 0, height: 0, bytes: Vec::new() };
                self.last_image = serialize_image(&zero);
                None
            },
            Some(img) => {
                if img.width == 0 {
                    return None;
                }
                let raw = serialize_image(&img);
                if same_bytes(&raw, &self.last_image) {
                    None
                } else {
                    self.last_image = raw;
                    Some(img)
                }
            },
        }
    }
}

} // verus!