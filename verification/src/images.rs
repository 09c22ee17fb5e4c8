//! Image sources of replaced elements and background images.
//!
//! An image URL stands for encoded bytes: the decoded body of a `data:` URL,
//! or else the bytes the host supplied for that URL. Decoding is left to the
//! `image` crate; this module decides which bytes are decoded and keeps the
//! paint list's decoded images, each under a key that is handed out once per
//! URL.

use vstd::prelude::*;

verus! {

/// What the `data_url` crate makes of a URL through its two calls in turn:
/// `None` when `DataUrl::process` refuses it as a `data:` URL, otherwise
/// the body that `DataUrl::decode_to_vec` then decodes from the parsed URL,
/// `None` when that body is not valid base64. It names the result of the
/// pair, not of either call alone.
pub uninterp spec fn data_url_body(url: Seq<char>) -> Option<Option<Seq<u8>>>;

/// Calls `data_url::DataUrl::process` on the URL and, when it is a `data:`
/// URL, `decode_to_vec` on the result, keeping the decoded bytes and
/// dropping the fragment. Trusted: the result is `data_url_body` of the URL.
#[verifier::external_body]
fn decode_data_url(url: &str) -> (body: Option<Option<Vec<u8>>>)
    ensures
        match body {
            None => data_url_body(url@) is None,
            Some(None) => data_url_body(url@) == Some(None::<Seq<u8>>),
            Some(Some(bytes)) => data_url_body(url@) == Some(Some(bytes@)),
        },
{
    match data_url::DataUrl::process(url) {
        Ok(parsed) => match parsed.decode_to_vec() {
            Ok((bytes, _)) => Some(Some(bytes)),
            Err(_) => Some(None),
        },
        Err(_) => None,
    }
}

/// Calls `image::load_from_memory` and, on success, `to_rgba8`, returning
/// the buffer's `dimensions` and its raw pixel bytes. Nothing is stated of
/// the outcome: the `image` crate consults format-detection and decoding
/// hooks that any code in the process may register, so the same bytes need
/// not decode alike from one call to the next.
#[verifier::external_body]
fn decode_rgba8(bytes: &[u8]) -> (image: Option<(u32, u32, Vec<u8>)>) {
    match image::load_from_memory(bytes) {
        Ok(decoded) => {
            let rgba = decoded.to_rgba8();
            let (width, height) = rgba.dimensions();
            Some((width, height, rgba.into_raw()))
        },
        Err(_) => None,
    }
}

/// The bytes an image URL stands for, given what its `data:` decoding gave
/// and what the host supplied for it: a `data:` URL always stands for its own
/// body, even when that body failed to decode.
pub open spec fn chosen_bytes(data_body: Option<Option<Seq<u8>>>, host: Option<Seq<u8>>) -> Option<
    Seq<u8>,
> {
    match data_body {
        Some(body) => body,
        None => host,
    }
}

/// The view of optional bytes.
pub open spec fn bytes_of(bytes: Option<&Vec<u8>>) -> Option<Seq<u8>> {
    match bytes {
        Some(b) => Some(b@),
        None => None,
    }
}

/// The encoded bytes an image URL stands for.
pub open spec fn source_bytes(url: Seq<char>, host: Option<Seq<u8>>) -> Option<Seq<u8>> {
    chosen_bytes(data_url_body(url), host)
}

/// The intrinsic size of a decoded image: its width and height.
pub open spec fn decoded_dimensions(decoded: Option<(u32, u32, Vec<u8>)>) -> Option<(u32, u32)> {
    match decoded {
        Some((width, height, _)) => Some((width, height)),
        None => None,
    }
}

/// Copy bytes.
fn copy_bytes(bytes: &Vec<u8>) -> (copy: Vec<u8>)
    ensures
        copy@ == bytes@,
{
    let copy = bytes.clone();
    assert(copy@ =~= bytes@);
    copy
}

/// The view of a `data:` decoding.
pub open spec fn body_of(data_body: Option<Option<Vec<u8>>>) -> Option<Option<Seq<u8>>> {
    match data_body {
        Some(Some(bytes)) => Some(Some(bytes@)),
        Some(None) => Some(None),
        None => None,
    }
}

/// Pick the bytes an image URL stands for from its `data:` decoding and the
/// bytes the host supplied for it.
pub fn choose_source_bytes(data_body: Option<Option<Vec<u8>>>, host: Option<&Vec<u8>>) -> (bytes:
    Option<Vec<u8>>)
    ensures
        match bytes {
            Some(b) => chosen_bytes(body_of(data_body), bytes_of(host)) == Some(b@),
            None => chosen_bytes(body_of(data_body), bytes_of(host)) is None,
        },
{
    match data_body {
        Some(body) => body,
        None => match host {
            Some(supplied) => Some(copy_bytes(supplied)),
            None => None,
        },
    }
}

/// The encoded bytes an image URL stands for; `host` is what the host
/// supplied for the URL.
pub fn image_source_bytes(url: &str, host: Option<&Vec<u8>>) -> (bytes: Option<Vec<u8>>)
    ensures
        match bytes {
            Some(b) => source_bytes(url@, bytes_of(host)) == Some(b@),
            None => source_bytes(url@, bytes_of(host)) is None,
        },
{
    let body = decode_data_url(url);
    let bytes = choose_source_bytes(body, host);
    bytes
}

/// The intrinsic size of a decoded image; `None` when decoding failed.
pub fn decoded_size(decoded: Option<(u32, u32, Vec<u8>)>) -> (size: Option<(u32, u32)>)
    ensures
        size == decoded_dimensions(decoded),
{
    match decoded {
        Some((width, height, _)) => Some((width, height)),
        None => None,
    }
}

/// The intrinsic size of an `<img>` whose source is `url`; `host` is what
/// the host supplied for the URL. A URL that stands for no bytes has no
/// size; otherwise the size is `decoded_size` of whatever the decoder made
/// of those bytes.
pub fn image_intrinsic_size(url: &str, host: Option<&Vec<u8>>) -> (size: Option<(u32, u32)>)
    ensures
        source_bytes(url@, bytes_of(host)) is None ==> size is None,
{
    let bytes = image_source_bytes(url, host)?;
    decoded_size(decode_rgba8(bytes.as_slice()))
}

/// One decoded image of a paint list.
#[derive(Debug)]
pub struct ImageResource {
    pub key: u32,
    pub width: u32,
    pub height: u32,
    pub data: Vec<u8>,
}

/// The position of the first URL with this text.
pub open spec fn url_position(urls: Seq<String>, url: Seq<char>) -> Option<int> {
    if exists|i: int| 0 <= i < urls.len() && urls[i]@ == url {
        Some(choose|i: int| 0 <= i < urls.len() && urls[i]@ == url)
    } else {
        None
    }
}

/// The images of a paint list, each decoded once per URL. The image at
/// position `i` came from `urls[i]` and carries key `i + 1`.
pub struct PaintImages {
    images: Vec<ImageResource>,
    urls: Vec<String>,
}

impl PaintImages {
    #[verifier::type_invariant]
    spec fn well_formed(&self) -> bool {
        &&& self.images@.len() == self.urls@.len()
        &&& self.images@.len() < u32::MAX
        &&& forall|i: int| 0 <= i < self.images@.len() ==> (#[trigger] self.images@[i]).key == i + 1
        &&& forall|i: int, j: int|
            0 <= i < j < self.urls@.len() ==> (#[trigger] self.urls@[i])@ != (#[trigger] self.urls@[j])@
    }

    /// The URLs of the decoded images, in key order.
    pub closed spec fn spec_urls(&self) -> Seq<String> {
        self.urls@
    }

    /// The decoded images, in key order.
    pub closed spec fn spec_images(&self) -> Seq<ImageResource> {
        self.images@
    }

    /// No image yet.
    pub fn new() -> (images: Self)
        ensures
            images.spec_urls().len() == 0,
            images.spec_images().len() == 0,
    {
        PaintImages { images: Vec::new(), urls: Vec::new() }
    }

    /// The number of decoded images.
    pub fn len(&self) -> (count: usize)
        ensures
            count == self.spec_images().len(),
    {
        self.images.len()
    }

    fn url_index(&self, url: &str) -> (found: Option<usize>)
        ensures
            match found {
                Some(i) => i < self.spec_urls().len() && url_position(self.spec_urls(), url@) == Some(
                    i as int,
                ),
                None => url_position(self.spec_urls(), url@) is None,
            },
    {
        proof {
            use_type_invariant(self);
        }
        let mut i: usize = 0;
        while i < self.urls.len()
            invariant
                i <= self.urls@.len(),
                forall|k: int| 0 <= k < i ==> (#[trigger] self.urls@[k])@ != url@,
            decreases self.urls@.len() - i,
        {
            if crate::text::str_equal(self.urls[i].as_str(), url) {
                proof {
                    use_type_invariant(self);
                    let c = choose|c: int| 0 <= c < self.urls@.len() && self.urls@[c]@ == url@;
                    if c != i {
                        if c < i {
                            assert(self.urls@[c]@ != url@);
                        } else {
                            assert(self.urls@[i as int]@ != self.urls@[c]@);
                        }
                    }
                }
                return Some(i);
            }
            i = i + 1;
        }
        None
    }

    /// Keep a freshly decoded image for a URL that has none yet, under the
    /// next key; a failed decoding keeps nothing and gives no key.
    pub fn keep_decoded(&mut self, url: &str, decoded: Option<(u32, u32, Vec<u8>)>) -> (key: Option<u32>)
        requires
            url_position(old(self).spec_urls(), url@) is None,
            old(self).spec_images().len() + 1 < u32::MAX,
        ensures
            match decoded {
                Some((width, height, pixels)) => {
                    &&& key == Some((old(self).spec_images().len() + 1) as u32)
                    &&& appended_image(*old(self), *final(self), url@)
                    &&& final(self).spec_images().last().width == width
                    &&& final(self).spec_images().last().height == height
                    &&& final(self).spec_images().last().data@ == pixels@
                },
                None => key is None && same_images(*old(self), *final(self)),
            },
    {
        proof {
            use_type_invariant(&*self);
        }
        let (width, height, data) = match decoded {
            Some(image) => image,
            None => return None,
        };
        let key = (self.images.len() + 1) as u32;
        let owned = url_text(url);
        let ghost old_urls = self.urls@;
        proof {
            assert forall|i: int| 0 <= i < old_urls.len() implies old_urls[i]@ != url@ by {
                if old_urls[i]@ == url@ {
                    assert(url_position(old_urls, url@) is Some);
                }
            }
        }
        let mut current = PaintImages::new();
        std::mem::swap(&mut current, self);
        let PaintImages { mut images, mut urls } = current;
        images.push(ImageResource { key, width, height, data });
        urls.push(owned);
        proof {
            assert(urls@.drop_last() =~= old_urls);
            assert(images@.drop_last() =~= old(self).images@);
        }
        *self = PaintImages { images, urls };
        proof {
            use_type_invariant(&*self);
            lemma_last_url_position(self.urls@, url@);
        }
        Some(key)
    }

    /// The key of the image a URL stands for, decoding and keeping it the
    /// first time; `host` is what the host supplied for the URL. A URL seen
    /// before gets its key back. A new URL that stands for no bytes gets no
    /// key; otherwise what the decoder made of its bytes goes to
    /// `keep_decoded`, so the image is kept under the next key or, when
    /// decoding failed, nothing is kept and the URL is tried afresh next time.
    pub fn image_key_for(&mut self, url: &str, host: Option<&Vec<u8>>) -> (key: Option<u32>)
        requires
            old(self).spec_images().len() + 1 < u32::MAX,
        ensures
            key matches Some(k) ==> url_position(final(self).spec_urls(), url@) == Some(k - 1),
            match url_position(old(self).spec_urls(), url@) {
                Some(i) => key == Some((i + 1) as u32) && same_images(*old(self), *final(self)),
                None => match source_bytes(url@, bytes_of(host)) {
                    Some(_) => match key {
                        Some(k) => k == old(self).spec_images().len() + 1 && appended_image(
                            *old(self),
                            *final(self),
                            url@,
                        ),
                        None => same_images(*old(self), *final(self)),
                    },
                    None => key is None && same_images(*old(self), *final(self)),
                },
            },
    {
        proof {
            use_type_invariant(&*self);
        }
        if let Some(i) = self.url_index(url) {
            proof {
                use_type_invariant(&*self);
            }
            return Some((i + 1) as u32);
        }
        let bytes = match image_source_bytes(url, host) {
            Some(b) => b,
            None => return None,
        };
        let key = self.keep_decoded(url, decode_rgba8(bytes.as_slice()));
        proof {
            use_type_invariant(&*self);
            if key is Some {
                lemma_last_url_position(self.urls@, url@);
            }
        }
        key
    }

    /// The size of the image under a key.
    pub fn image_size(&self, key: u32) -> (size: Option<(u32, u32)>)
        ensures
            match size {
                Some((width, height)) => 1 <= key <= self.spec_images().len() && width
                    == self.spec_images()[key - 1].width && height == self.spec_images()[key
                    - 1].height,
                None => key == 0 || key > self.spec_images().len(),
            },
    {
        proof {
            use_type_invariant(self);
        }
        let mut i: usize = 0;
        while i < self.images.len()
            invariant
                i <= self.images@.len(),
                forall|k: int| 0 <= k < i ==> (#[trigger] self.images@[k]).key != key,
                forall|k: int| 0 <= k < self.images@.len() ==> (#[trigger] self.images@[k]).key == k + 1,
            decreases self.images@.len() - i,
        {
            if self.images[i].key == key {
                return Some((self.images[i].width, self.images[i].height));
            }
            i = i + 1;
        }
        proof {
            if 1 <= key <= self.images@.len() {
                assert(self.images@[key - 1].key == key);
            }
        }
        None
    }
}

/// Nothing was kept: the URLs and images are as they were.
pub open spec fn same_images(before: PaintImages, after: PaintImages) -> bool {
    after.spec_urls() == before.spec_urls() && after.spec_images() == before.spec_images()
}

/// One image was kept for `url`, after the ones there were, under the next
/// key.
pub open spec fn appended_image(before: PaintImages, after: PaintImages, url: Seq<char>) -> bool {
    let n = before.spec_images().len();
    &&& after.spec_urls().len() == n + 1
    &&& after.spec_urls().drop_last() == before.spec_urls()
    &&& after.spec_urls().last()@ == url
    &&& after.spec_images().drop_last() == before.spec_images()
    &&& after.spec_images().last().key == n + 1
}

/// An owned copy of a URL.
fn url_text(url: &str) -> (owned: String)
    ensures
        owned@ == url@,
{
    url.to_owned()
}

/// A URL that ends a list of distinct URLs is found at the end.
proof fn lemma_last_url_position(urls: Seq<String>, url: Seq<char>)
    requires
        urls.len() > 0,
        urls.last()@ == url,
        forall|a: int, b: int| 0 <= a < b < urls.len() ==> (#[trigger] urls[a])@ != (#[trigger] urls[b])@,
    ensures
        url_position(urls, url) == Some(urls.len() - 1),
{
    let n = urls.len() - 1;
    assert(0 <= n < urls.len() && urls[n]@ == url);
    let c = choose|c: int| 0 <= c < urls.len() && urls[c]@ == url;
    if c != n {
        assert(urls[c]@ != urls[n]@);
    }
}

} // verus!
