use collections_practice::aggregator::{NewsArticle, SocialPost, Summary};
use collections_practice::control_flow::loop_fn;
use collections_practice::functions::five;
use collections_practice::generics::{largest, Point};
use collections_practice::lifetimes::longest;
use collections_practice::ownership::{calculate_length, change, gives_ownership, takes_and_gives_back};
use collections_practice::slices::first_word;
use collections_practice::users::build_user;

fn post() -> SocialPost {
    SocialPost {
        username: String::from("horse_ebooks"),
        content: String::from("yes, of course, you'll only find people here!"),
        reply: false,
        repost: false,
    }
}

fn article() -> NewsArticle {
    NewsArticle {
        headline: String::from("Penguins win the Stanley Cup Championship!"),
        location: String::from("Pittsburgh, PA, USA"),
        author: String::from("Iceburgh"),
        content: String::from("The Pittsburgh Penguins once again are the best hockey team in the NHL."),
    }
}

#[test]
fn social_post_uses_default_summary() {
    assert_eq!(post().summarize_author(), "@horse_ebooks");
    assert_eq!(post().summarize(), "Read more from @horse_ebooks...");
}

#[test]
fn news_article_summary() {
    assert_eq!(article().summarize_author(), "by Iceburgh");
    assert_eq!(
        article().summarize(),
        "Penguins win the Stanley Cup Championship!, by Iceburgh (Pittsburgh, PA, USA)"
    );
}

#[test]
fn first_word_stops_at_non_letters() {
    assert_eq!(first_word("Hello, world!"), "Hello");
    assert_eq!(first_word("hello world"), "hello");
    assert_eq!(first_word("abc"), "abc");
    assert_eq!(first_word(""), "");
    assert_eq!(first_word("42 apples"), "");
    assert_eq!(first_word("caf\u{e9} au lait"), "caf");
}

#[test]
fn build_user_defaults() {
    let u = build_user(String::from("user-2"), String::from("email_two@example.com"));
    assert!(u.active);
    assert_eq!(u.sign_in_count, 1);
    assert_eq!(u.username, "user-2");
    assert_eq!(u.email, "email_two@example.com");
}

#[test]
fn point_first_coordinate() {
    let p = Point { x: 5, y: 10 };
    assert_eq!(*p.x(), 5);
}

#[test]
fn largest_of_lists() {
    assert_eq!(*largest(&[34, 50, 25, 100, 65]), 100);
    assert_eq!(*largest(&['y', 'm', 'a', 'q']), 'y');
    assert_eq!(*largest(&[-4]), -4);
}

#[test]
fn longest_by_bytes() {
    assert_eq!(longest("abcd", "xyz"), "abcd");
    assert_eq!(longest("ab", "xyz"), "xyz");
    assert_eq!(longest("abc", "xyz"), "xyz");
    assert_eq!(longest("\u{e9}\u{e9}", "abc"), "\u{e9}\u{e9}");
}

#[test]
fn loop_counts_to_limit() {
    assert_eq!(loop_fn(5), 5);
    assert_eq!(loop_fn(1), 1);
}

#[test]
fn five_is_five() {
    assert_eq!(five(), 5);
}

#[test]
fn ownership_round_trip() {
    assert_eq!(gives_ownership(), "yours!");
    assert_eq!(takes_and_gives_back(String::from("i'm new!")), "i'm new!");
}

#[test]
fn references_length_and_change() {
    assert_eq!(calculate_length(&String::from("test!")), 5);
    assert_eq!(calculate_length(&String::from("\u{e9}")), 2);
    let mut s = String::from("Hello");
    change(&mut s);
    assert_eq!(s, "Hello, world!");
}
