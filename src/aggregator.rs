use vstd::prelude::*;

verus! {

/// Something that can be summed up in a line.
pub trait Summary {
    /// How the author of the item is shown.
    spec fn author_text(&self) -> Seq<char>;

    /// Shows the author of the item.
    fn summarize_author(&self) -> (r: String)
        ensures
            r@ == self.author_text(),
    ;

    /// Sums the item up. Unless a type says otherwise, the line points the
    /// reader to the author.
    fn summarize(&self) -> (r: String)
        default_ensures
            r@ == "Read more from "@ + self.author_text() + "..."@,
    {
        let mut s = String::from_str("Read more from ");
        let author = self.summarize_author();
        s.append(author.as_str());
        s.append("...");
        s
    }
}

/// A news article.
pub struct NewsArticle {
    pub headline: String,
    pub location: String,
    pub author: String,
    pub content: String,
}

impl Summary for NewsArticle {
    open spec fn author_text(&self) -> Seq<char> {
        "by "@ + self.author@
    }

    fn summarize_author(&self) -> (r: String) {
        let mut s = String::from_str("by ");
        s.append(self.author.as_str());
        s
    }

    /// The headline, the author and, in parentheses, the location.
    fn summarize(&self) -> (r: String)
        ensures
            r@ == self.headline@ + ", "@ + self.author_text() + " ("@ + self.location@ + ")"@,
    {
        let mut s = self.headline.clone();
        s.append(", ");
        let author = self.summarize_author();
        s.append(author.as_str());
        s.append(" (");
        s.append(self.location.as_str());
        s.append(")");
        s
    }
}

/// A post on a social network.
pub struct SocialPost {
    pub username: String,
    pub content: String,
    pub reply: bool,
    pub repost: bool,
}

impl Summary for SocialPost {
    open spec fn author_text(&self) -> Seq<char> {
        "@"@ + self.username@
    }

    fn summarize_author(&self) -> (r: String) {
        let mut s = String::from_str("@");
        s.append(self.username.as_str());
        s
    }
}

} // verus!
