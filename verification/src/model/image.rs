use vstd::prelude::*;

verus! {

/// An image discovered on a page.
pub struct Image {
    /// the absolute URL of this image
    pub link: String,
    /// the alternative text found within the image tag (possibly empty)
    pub alt: String,
}

/// The mathematical content of an [`Image`]: both fields as character sequences.
#[verifier::ext_equal]
pub struct ImageView {
    pub link: Seq<char>,
    pub alt: Seq<char>,
}

impl View for Image {
    type V = ImageView;

    open spec fn view(&self) -> ImageView {
        ImageView { link: self.link@, alt: self.alt@ }
    }
}

impl DeepView for Image {
    type V = ImageView;

    open spec fn deep_view(&self) -> ImageView {
        self@
    }
}

impl Clone for Image {
    fn clone(&self) -> (r: Self)
        ensures
            r == *self,
    {
        Image { link: self.link.clone(), alt: self.alt.clone() }
    }
}

} // verus!
