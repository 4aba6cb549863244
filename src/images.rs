//! Image generation requests and responses.
use vstd::prelude::*;

verus! {

#[derive(Debug, Clone)]
pub struct ImageArguments {
    /// A text description of the desired image(s), at most 1000 characters.
    pub prompt: String,
    /// The model to use for image generation (e.g. "gpt-image-1").
    pub model: Option<String>,
    /// The number of images to generate, between 1 and 10; 1 by default.
    pub n: Option<u32>,
    /// The size of the generated images; "1024x1024" by default.
    pub size: Option<String>,
    /// The quality of the generated images.
    pub quality: Option<String>,
    /// An identifier of the end user.
    pub user: Option<String>,
}

impl ImageArguments {
    /// A request for the given prompt with every option left to the server.
    pub fn new(prompt: &str) -> (r: Self)
        ensures
            r.prompt@ == prompt@,
            r.model is None,
            r.n is None,
            r.size is None,
            r.quality is None,
            r.user is None,
    {
        Self { prompt: prompt.to_owned(), model: None, n: None, size: None, quality: None, user: None }
    }

    /// The request that the image endpoint is sent for these arguments: the
    /// prompt is kept and the model, count, size and quality are fixed to
    /// one 1024x1024 image of "gpt-image-1" at "auto" quality.
    pub fn generation_request(self) -> (r: Self)
        ensures
            r.prompt == self.prompt,
            r.model matches Some(m) && m@ == "gpt-image-1"@,
            r.n == Some(1u32),
            r.size matches Some(s) && s@ == "1024x1024"@,
            r.quality matches Some(q) && q@ == "auto"@,
            r.user is None,
    {
        Self {
            prompt: self.prompt,
            model: Some("gpt-image-1".to_owned()),
            n: Some(1),
            size: Some("1024x1024".to_owned()),
            quality: Some("auto".to_owned()),
            user: None,
        }
    }
}

/// One generated image, as a URL or as base64-encoded data.
#[derive(Debug, Clone)]
pub enum ImageObject {
    Url(String),
    Base64JSON(String),
}

impl ImageObject {
    pub open spec fn text(self) -> Seq<char> {
        match self {
            ImageObject::Url(s) => s@,
            ImageObject::Base64JSON(s) => s@,
        }
    }
}

/// The answer of the image endpoint.
#[derive(Debug, Clone)]
pub struct ImageResponse {
    pub created: u32,
    pub data: Vec<ImageObject>,
}

impl ImageResponse {
    /// The URL or base64 data of each image, in order.
    pub fn image_strings(&self) -> (r: Vec<String>)
        ensures
            r@.len() == self.data@.len(),
            forall|i: int| 0 <= i < r@.len() ==> #[trigger] r@[i]@ == self.data@[i].text(),
    {
        let mut out: Vec<String> = Vec::new();
        let mut i: usize = 0;
        while i < self.data.len()
            invariant
                i <= self.data@.len(),
                out@.len() == i,
                forall|k: int| 0 <= k < i ==> #[trigger] out@[k]@ == self.data@[k].text(),
            decreases self.data@.len() - i,
        {
            let s = match &self.data[i] {
                ImageObject::Url(s) => s.clone(),
                ImageObject::Base64JSON(s) => s.clone(),
            };
            out.push(s);
            i = i + 1;
        }
        out
    }
}

} // verus!
