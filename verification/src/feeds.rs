//! RSS feeds: the XML of a channel and of its items.

use vstd::prelude::*;
use crate::category::{first_with_slug, get_category_by_slug};
use crate::metadata::{
    in_category, newest_first, posts_of, published, published_posts, MetadataCache, PostMetadata,
};
use crate::order::{is_stable_order, keys_of, reordered};
use crate::select::kept;
use crate::slug::{decode_from_url, url_decoded};
use crate::text::{chars_of, clone_strings, push_all, push_str, replace_all, replaced, string_of};
use crate::types::{Category, Post};

verus! {

/// `s` with the five characters that XML reserves replaced by their
/// entities: `&` first, then `<`, `>`, `"` and `'`.
pub open spec fn xml_escaped(s: Seq<char>) -> Seq<char> {
    replaced(
        replaced(
            replaced(replaced(replaced(s, "&"@, "&amp;"@), "<"@, "&lt;"@), ">"@, "&gt;"@),
            "\""@,
            "&quot;"@,
        ),
        "'"@,
        "&apos;"@,
    )
}

/// One post as a feed shows it. Dates are given as RFC 2822 text.
#[derive(Debug, Clone, PartialEq, Eq)]
pub struct FeedItem {
    pub title: String,
    pub url: String,
    pub author: String,
    pub pub_date: String,
    pub category_name: String,
    pub tags: Vec<String>,
    pub description: String,
    pub content: String,
}

/// A feed's channel. Dates are given as RFC 2822 text.
#[derive(Debug, Clone, PartialEq, Eq)]
pub struct FeedChannel {
    pub title: String,
    pub description: String,
    pub feed_url: String,
    pub link: String,
    pub last_build_date: String,
}

/// The `category` elements for the first `count` tags of a post, each on
/// a line of its own.
pub open spec fn tags_text(tags: Seq<String>, count: int) -> Seq<char>
    decreases count,
{
    if count <= 0 {
        Seq::empty()
    } else {
        tags_text(tags, count - 1) + "\n        <category><![CDATA["@ + tags[count - 1]@
            + "]]></category>"@
    }
}

/// The `item` element for a post.
pub open spec fn item_text(item: FeedItem) -> Seq<char> {
    "    <item>\n        <title>"@ + xml_escaped(item.title@) + "</title>\n        <link>"@
        + item.url@ + "</link>\n        <dc:creator><![CDATA["@ + item.author@
        + "]]></dc:creator>\n        <pubDate>"@ + item.pub_date@
        + "</pubDate>\n        <category><![CDATA["@ + item.category_name@ + "]]></category>"@
        + tags_text(item.tags@, item.tags@.len() as int)
        + "\n        <guid isPermaLink=\"false\">"@ + item.url@
        + "</guid>\n        <description><![CDATA["@ + xml_escaped(item.description@)
        + "]]></description>\n        <content:encoded><![CDATA["@ + item.content@
        + "]]></content:encoded>\n    </item>"@
}

/// What opens every feed.
pub open spec fn feed_head() -> Seq<char> {
    "<?xml version=\"1.0\" encoding=\"UTF-8\"?>\n<rss version=\"2.0\" xmlns:content=\"http://purl.org/rss/1.0/modules/content/\" xmlns:wfw=\"http://wellformedweb.org/CommentAPI/\" xmlns:dc=\"http://purl.org/dc/elements/1.1/\" xmlns:atom=\"http://www.w3.org/2005/Atom\" xmlns:sy=\"http://purl.org/rss/1.0/modules/syndication/\" xmlns:slash=\"http://purl.org/rss/1.0/modules/slash/\"\n>\n<channel>\n    <title>"@
}

/// The first `count` items, each on lines of its own.
pub open spec fn items_text(items: Seq<String>, count: int) -> Seq<char>
    decreases count,
{
    if count <= 0 {
        Seq::empty()
    } else if count == 1 {
        items[0]@
    } else {
        items_text(items, count - 1) + "\n"@ + items[count - 1]@
    }
}

/// The XML of a feed with the given items.
pub open spec fn feed_text(channel: FeedChannel, items: Seq<String>) -> Seq<char> {
    feed_head() + xml_escaped(channel.title@) + "</title>\n    <description>"@ + xml_escaped(
        channel.description@,
    ) + "</description>\n    <language>ko-KR</language>\n    <atom:link href=\""@
        + channel.feed_url@ + "\" rel=\"self\" type=\"application/rss+xml\" />\n    <link>"@
        + channel.link@ + "</link>\n    <lastBuildDate>"@ + channel.last_build_date@
        + "</lastBuildDate>\n    <sy:updatePeriod>hourly</sy:updatePeriod>\n    <sy:updateFrequency>1</sy:updateFrequency>\n"@
        + items_text(items, items.len() as int) + "\n</channel>\n</rss>\n"@
}

/// The most posts that a feed lists.
pub const FEED_LIMIT: usize = 10;

/// How many of `count` posts a feed lists.
pub open spec fn feed_length(count: nat) -> int {
    if FEED_LIMIT < count {
        FEED_LIMIT as int
    } else {
        count as int
    }
}

/// The first `limit` of `posts`, or all of them where there are fewer.
pub fn first_posts<'a>(posts: &Vec<&'a PostMetadata>, limit: usize) -> (first: Vec<
    &'a PostMetadata,
>)
    ensures
        first@ == posts@.subrange(
            0,
            if limit < posts@.len() {
                limit as int
            } else {
                posts@.len() as int
            },
        ),
{
    let count = if limit < posts.len() { limit } else { posts.len() };
    let mut first: Vec<&'a PostMetadata> = Vec::new();
    let mut k: usize = 0;
    while k < count
        invariant
            k <= count <= posts@.len(),
            first@ == posts@.subrange(0, k as int),
        decreases count - k,
    {
        first.push(posts[k]);
        assert(first@ == posts@.subrange(0, k + 1));
        k += 1;
    }
    first
}

/// Writes the RSS feeds of a site.
pub struct FeedGenerator;

impl FeedGenerator {
    /// The posts that the site's feed lists: of the ten newest posts those
    /// that are no drafts, newest first.
    pub fn site_feed_posts(metadata: &MetadataCache) -> (listed: Vec<&PostMetadata>)
        ensures
            exists|order: Seq<usize>|
                is_stable_order(keys_of(metadata.posts@), order) && posts_of(listed@) == kept(
                    #[trigger] reordered(metadata.posts@, order).subrange(
                        0,
                        feed_length(metadata.posts@.len()),
                    ),
                    published(),
                ),
    {
        let recent = metadata.get_recent_posts(FEED_LIMIT);
        let listed = published_posts(&recent);
        proof {
            let order = choose|order: Seq<usize>|
                is_stable_order(keys_of(metadata.posts@), order) && #[trigger] reordered(
                    metadata.posts@,
                    order,
                ).subrange(0, recent@.len() as int) == posts_of(recent@);
            assert(recent@.len() == feed_length(metadata.posts@.len()));
            assert(posts_of(listed@) == kept(
                reordered(metadata.posts@, order).subrange(0, feed_length(metadata.posts@.len())),
                published(),
            ));
        }
        listed
    }

    /// The posts that the feed of a category lists: of its posts that are
    /// no drafts the ten newest, newest first.
    pub fn category_feed_posts<'a>(metadata: &'a MetadataCache, category: &str) -> (listed: Vec<
        &'a PostMetadata,
    >)
        ensures
            exists|chosen: Seq<&PostMetadata>, order: Seq<usize>|
                {
                    &&& posts_of(chosen) == kept(
                        kept(metadata.posts@, in_category(category@)),
                        published(),
                    )
                    &&& #[trigger] is_stable_order(keys_of(chosen), order)
                    &&& listed@ == reordered(chosen, order).subrange(0, feed_length(chosen.len()))
                },
    {
        let of_category = metadata.get_posts_by_category(category);
        let shown = published_posts(&of_category);
        let sorted = newest_first(&shown);
        let listed = first_posts(&sorted, FEED_LIMIT);
        proof {
            let order = choose|order: Seq<usize>| #[trigger]
                is_stable_order(keys_of(shown@), order) && sorted@ == reordered(shown@, order);
            assert(is_stable_order(keys_of(shown@), order));
            assert(sorted@.len() == shown@.len());
            assert(listed@ == reordered(shown@, order).subrange(0, feed_length(shown@.len())));
        }
        listed
    }

    /// Escapes a text for use in XML.
    pub fn escape_xml(s: &str) -> (escaped: String)
        ensures
            escaped@ == xml_escaped(s@),
    {
        string_of(&Self::escape(&chars_of(s)))
    }

    fn escape(s: &Vec<char>) -> (escaped: Vec<char>)
        ensures
            escaped@ == xml_escaped(s@),
    {
        let a = replace_all(s, &chars_of("&"), &chars_of("&amp;"));
        let b = replace_all(&a, &chars_of("<"), &chars_of("&lt;"));
        let c = replace_all(&b, &chars_of(">"), &chars_of("&gt;"));
        let d = replace_all(&c, &chars_of("\""), &chars_of("&quot;"));
        replace_all(&d, &chars_of("'"), &chars_of("&apos;"))
    }

    /// The address of a post: `<site>/<category>/<slug>`.
    pub fn post_url(site_url: &str, category: &str, slug: &str) -> (url: String)
        ensures
            url@ == site_url@ + "/"@ + category@ + "/"@ + slug@,
    {
        let mut out = chars_of(site_url);
        push_str(&mut out, "/");
        push_str(&mut out, category);
        push_str(&mut out, "/");
        push_str(&mut out, slug);
        string_of(&out)
    }

    /// The name of the file that a post with this slug was read from.
    pub fn post_file_name(slug: &str) -> (name: String)
        ensures
            name@ == url_decoded(slug@) + ".md"@,
    {
        let decoded = decode_from_url(slug);
        let mut out = chars_of(decoded.as_str());
        push_str(&mut out, ".md");
        string_of(&out)
    }

    /// What a feed shows of `post`: its address, the name of its category
    /// or, where the site does not know the category, its slug, and its
    /// description or, where it has none, its title.
    pub fn item_for(
        post: &Post,
        site_url: &str,
        author: &str,
        categories: &[Category],
        pub_date: &str,
        rendered_content: &str,
    ) -> (item: FeedItem)
        ensures
            item.title@ == post.frontmatter.title@,
            item.url@ == site_url@ + "/"@ + post.category@ + "/"@ + post.slug@,
            item.author@ == author@,
            item.pub_date@ == pub_date@,
            item.category_name@ == if first_with_slug(categories@, post.category@, 0)
                < categories@.len() {
                categories@[first_with_slug(categories@, post.category@, 0)].name@
            } else {
                post.category@
            },
            item.tags@ == post.frontmatter.tags@,
            item.description@ == match post.frontmatter.description {
                Some(text) => text@,
                None => post.frontmatter.title@,
            },
            item.content@ == rendered_content@,
    {
        let category_name = match get_category_by_slug(post.category.as_str(), categories) {
            Some(category) => category.name.clone(),
            None => post.category.clone(),
        };
        let description = match &post.frontmatter.description {
            Some(text) => text.clone(),
            None => post.frontmatter.title.clone(),
        };
        FeedItem {
            title: post.frontmatter.title.clone(),
            url: Self::post_url(site_url, post.category.as_str(), post.slug.as_str()),
            author: author.to_owned(),
            pub_date: pub_date.to_owned(),
            category_name,
            tags: clone_strings(&post.frontmatter.tags),
            description,
            content: rendered_content.to_owned(),
        }
    }

    /// The `item` element for a post.
    pub fn item_xml(item: &FeedItem) -> (xml: String)
        ensures
            xml@ == item_text(*item),
    {
        let mut out: Vec<char> = Vec::new();
        push_str(&mut out, "    <item>\n        <title>");
        push_all(&mut out, &Self::escape(&chars_of(item.title.as_str())));
        push_str(&mut out, "</title>\n        <link>");
        push_str(&mut out, item.url.as_str());
        push_str(&mut out, "</link>\n        <dc:creator><![CDATA[");
        push_str(&mut out, item.author.as_str());
        push_str(&mut out, "]]></dc:creator>\n        <pubDate>");
        push_str(&mut out, item.pub_date.as_str());
        push_str(&mut out, "</pubDate>\n        <category><![CDATA[");
        push_str(&mut out, item.category_name.as_str());
        push_str(&mut out, "]]></category>");
        let ghost head = out@;
        let mut k: usize = 0;
        assert(out@ == head + tags_text(item.tags@, 0));
        while k < item.tags.len()
            invariant
                k <= item.tags@.len(),
                out@ == head + tags_text(item.tags@, k as int),
            decreases item.tags.len() - k,
        {
            let ghost before = out@;
            push_str(&mut out, "\n        <category><![CDATA[");
            push_str(&mut out, item.tags[k].as_str());
            push_str(&mut out, "]]></category>");
            assert(out@ == head + (tags_text(item.tags@, k as int)
                + "\n        <category><![CDATA["@ + item.tags@[k as int]@ + "]]></category>"@));
            k += 1;
        }
        push_str(&mut out, "\n        <guid isPermaLink=\"false\">");
        push_str(&mut out, item.url.as_str());
        push_str(&mut out, "</guid>\n        <description><![CDATA[");
        push_all(&mut out, &Self::escape(&chars_of(item.description.as_str())));
        push_str(&mut out, "]]></description>\n        <content:encoded><![CDATA[");
        push_str(&mut out, item.content.as_str());
        push_str(&mut out, "]]></content:encoded>\n    </item>");
        string_of(&out)
    }

    /// The XML of a feed with the given items, each the `item` element of
    /// a post.
    pub fn feed_xml(channel: &FeedChannel, items: &Vec<String>) -> (xml: String)
        ensures
            xml@ == feed_text(*channel, items@),
    {
        let mut out: Vec<char> = Vec::new();
        push_str(
            &mut out,
            "<?xml version=\"1.0\" encoding=\"UTF-8\"?>\n<rss version=\"2.0\" xmlns:content=\"http://purl.org/rss/1.0/modules/content/\" xmlns:wfw=\"http://wellformedweb.org/CommentAPI/\" xmlns:dc=\"http://purl.org/dc/elements/1.1/\" xmlns:atom=\"http://www.w3.org/2005/Atom\" xmlns:sy=\"http://purl.org/rss/1.0/modules/syndication/\" xmlns:slash=\"http://purl.org/rss/1.0/modules/slash/\"\n>\n<channel>\n    <title>",
        );
        push_all(&mut out, &Self::escape(&chars_of(channel.title.as_str())));
        push_str(&mut out, "</title>\n    <description>");
        push_all(&mut out, &Self::escape(&chars_of(channel.description.as_str())));
        push_str(
            &mut out,
            "</description>\n    <language>ko-KR</language>\n    <atom:link href=\"",
        );
        push_str(&mut out, channel.feed_url.as_str());
        push_str(&mut out, "\" rel=\"self\" type=\"application/rss+xml\" />\n    <link>");
        push_str(&mut out, channel.link.as_str());
        push_str(&mut out, "</link>\n    <lastBuildDate>");
        push_str(&mut out, channel.last_build_date.as_str());
        push_str(
            &mut out,
            "</lastBuildDate>\n    <sy:updatePeriod>hourly</sy:updatePeriod>\n    <sy:updateFrequency>1</sy:updateFrequency>\n",
        );
        let ghost head = out@;
        let mut k: usize = 0;
        assert(out@ == head + items_text(items@, 0));
        while k < items.len()
            invariant
                k <= items@.len(),
                out@ == head + items_text(items@, k as int),
            decreases items.len() - k,
        {
            if k > 0 {
                push_str(&mut out, "\n");
            }
            push_str(&mut out, items[k].as_str());
            proof {
                if k > 0 {
                    assert(out@ == head + (items_text(items@, k as int) + "\n"@ + items@[k as int]@));
                } else {
                    assert(items_text(items@, 1) == items@[0]@);
                    assert(head + Seq::<char>::empty() + items@[0]@ == head + items@[0]@);
                }
            }
            k += 1;
        }
        push_str(&mut out, "\n</channel>\n</rss>\n");
        string_of(&out)
    }

    /// The channel of the feed of one category.
    pub fn category_channel(
        site_title: &str,
        site_url: &str,
        category_slug: &str,
        category_name: &str,
        category_description: &str,
        last_build_date: &str,
    ) -> (channel: FeedChannel)
        ensures
            channel.title@ == site_title@ + " - "@ + category_name@,
            channel.description@ == if category_description@.len() == 0 {
                category_name@ + " posts from "@ + site_title@
            } else {
                category_description@
            },
            channel.feed_url@ == site_url@ + "/"@ + category_slug@ + "/feed.xml"@,
            channel.link@ == site_url@ + "/"@ + category_slug@ + "/"@,
            channel.last_build_date@ == last_build_date@,
    {
        let mut title = chars_of(site_title);
        push_str(&mut title, " - ");
        push_str(&mut title, category_name);
        let description = if chars_of(category_description).len() == 0 {
            let mut text = chars_of(category_name);
            push_str(&mut text, " posts from ");
            push_str(&mut text, site_title);
            string_of(&text)
        } else {
            category_description.to_owned()
        };
        let mut link = chars_of(site_url);
        push_str(&mut link, "/");
        push_str(&mut link, category_slug);
        push_str(&mut link, "/");
        let mut feed_url = chars_of(site_url);
        push_str(&mut feed_url, "/");
        push_str(&mut feed_url, category_slug);
        push_str(&mut feed_url, "/feed.xml");
        FeedChannel {
            title: string_of(&title),
            description,
            feed_url: string_of(&feed_url),
            link: string_of(&link),
            last_build_date: last_build_date.to_owned(),
        }
    }

    /// The channel of the feed of the whole site.
    pub fn site_channel(
        site_title: &str,
        site_description: &str,
        site_url: &str,
        last_build_date: &str,
    ) -> (channel: FeedChannel)
        ensures
            channel.title@ == site_title@,
            channel.description@ == site_description@,
            channel.feed_url@ == site_url@ + "/feed.xml"@,
            channel.link@ == site_url@,
            channel.last_build_date@ == last_build_date@,
    {
        let mut feed_url = chars_of(site_url);
        push_str(&mut feed_url, "/feed.xml");
        FeedChannel {
            title: site_title.to_owned(),
            description: site_description.to_owned(),
            feed_url: string_of(&feed_url),
            link: site_url.to_owned(),
            last_build_date: last_build_date.to_owned(),
        }
    }
}

} // verus!
