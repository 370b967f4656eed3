//! The decode framework and the paginated iterator.

use aliyun_oss_client::client::Client;
use aliyun_oss_client::decode::decode_item;
use aliyun_oss_client::decode::decode_list;
use aliyun_oss_client::decode::next_token_of;
use aliyun_oss_client::decode::DecodeError;
use aliyun_oss_client::decode::ItemTarget;
use aliyun_oss_client::decode::ListTarget;
use aliyun_oss_client::errors::OssError;
use aliyun_oss_client::pager::Cursor;
use aliyun_oss_client::pager::Page;
use aliyun_oss_client::pager::Pager;
use aliyun_oss_client::types::EndPoint;
use aliyun_oss_client::types::KeyId;
use aliyun_oss_client::types::KeySecret;
use aliyun_oss_client::types::Query;
use aliyun_oss_client::types::QueryKey;
use aliyun_oss_client::types::QueryValue;

#[derive(Debug, Default)]
struct MyItem {
    key: String,
}

impl ItemTarget<String> for MyItem {
    fn set_key(&mut self, key: &str) -> Result<(), String> {
        if key.is_empty() {
            return Err("empty key".to_owned());
        }
        self.key = key.to_owned();
        Ok(())
    }
}

#[derive(Debug, Default)]
struct MyList {
    name: String,
    keys: Vec<String>,
}

impl ListTarget<MyItem, String> for MyList {
    fn set_name(&mut self, name: &str) -> Result<(), String> {
        self.name = name.to_owned();
        Ok(())
    }

    fn set_list(&mut self, items: Vec<MyItem>) -> Result<(), String> {
        self.keys = items.into_iter().map(|i| i.key).collect();
        Ok(())
    }
}

#[test]
fn decode_item_takes_the_key() {
    let mut item = MyItem::default();
    let r = decode_item("<Item><Key>k1</Key></Item>", &mut item);
    assert!(r.is_ok());
    assert_eq!(item.key, "k1");
}

#[test]
fn decode_item_rejects_a_document_without_key() {
    let mut item = MyItem::default();
    let r = decode_item("<Item></Item>", &mut item);
    assert!(matches!(r, Err(DecodeError::Format(_))));
}

#[test]
fn decode_item_passes_target_rejections_on() {
    let mut item = MyItem::default();
    let r = decode_item("<Item><Key></Key></Item>", &mut item);
    assert!(matches!(r, Err(DecodeError::Target(e)) if e == "empty key"));
}

#[test]
fn decode_list_round_trip() {
    let xml = "<List><Name>buckets</Name>\
        <Item><Key>k1</Key></Item>\
        <Item><Key>k2</Key></Item></List>";
    let mut list = MyList::default();
    let r = decode_list(xml, &mut list, MyItem::default);
    assert!(r.is_ok());
    assert_eq!(list.name, "buckets");
    assert_eq!(list.keys, vec!["k1".to_owned(), "k2".to_owned()]);
}

#[test]
fn decode_list_rejects_malformed_documents() {
    let mut list = MyList::default();
    let r = decode_list("<List></List>", &mut list, MyItem::default);
    assert!(matches!(r, Err(DecodeError::Format(_))));

    let mut list = MyList::default();
    let unpaired = "<List><Name>buckets</Name><Item><Key>k</Key></List>";
    let r = decode_list(unpaired, &mut list, MyItem::default);
    assert!(matches!(r, Err(DecodeError::Format(_))));
}

#[test]
fn next_token_present_or_absent() {
    let with = "<List><NextContinuationToken>abc</NextContinuationToken></List>";
    assert_eq!(next_token_of(with), Some("abc".to_owned()));
    let empty = "<List><NextContinuationToken></NextContinuationToken></List>";
    assert_eq!(next_token_of(empty), None);
    let missing = "<List></List>";
    assert_eq!(next_token_of(missing), None);
}

#[test]
fn page_drops_an_empty_token() {
    let page: Page<u32> = Page::new(vec![1, 2], Some("".to_owned()));
    assert!(page.next_token.is_none());
    let page: Page<u32> = Page::new(vec![1, 2], Some("c1".to_owned()));
    assert_eq!(page.next_token, Some("c1".to_owned()));
}

#[test]
fn pager_pulls_two_pages_then_stops() {
    let mut base = Query::new();
    base.insert(QueryKey::from_static("max-keys"), QueryValue::from_static("2"));

    let fetch = |q: Query| -> Result<Page<u32>, OssError> {
        match q.get("continuation-token") {
            None => Ok(Page::new(vec![1, 2], Some("c1".to_owned()))),
            Some(token) => {
                assert_eq!(token.as_str(), "c1");
                assert!(q.get("max-keys").is_some());
                Ok(Page::new(vec![3], None))
            }
        }
    };

    let mut pager = Pager::new(base, fetch);

    let first = pager.next().unwrap().unwrap();
    assert_eq!(first.items, vec![1, 2]);
    assert_eq!(first.next_token, Some("c1".to_owned()));

    let second = pager.next().unwrap().unwrap();
    assert_eq!(second.items, vec![3]);
    assert_eq!(second.next_token, None);

    assert!(pager.next().is_none());
    assert!(pager.next().is_none());
}

#[test]
fn pager_leaves_the_cursor_standing_on_an_error() {
    let base = Query::new();
    let fetch = |q: Query| -> Result<Page<u32>, OssError> {
        if q.get("continuation-token").is_none() {
            Err(OssError::Input("transport failed".to_owned()))
        } else {
            Ok(Page::new(vec![], None))
        }
    };
    let mut pager = Pager::new(base, fetch);
    assert!(matches!(pager.next(), Some(Err(OssError::Input(_)))));
    // The cursor did not move: the same fetch is retried.
    assert!(matches!(pager.cursor, Cursor::Start));
    assert!(matches!(pager.next(), Some(Err(OssError::Input(_)))));
}

#[test]
fn parse_xml_extracts_bucket_names() {
    let xml = "<ListAllMyBucketsResult><Buckets>\
        <Bucket><Name>alpha</Name></Bucket>\
        <Bucket><Name>beta</Name></Bucket>\
        </Buckets></ListAllMyBucketsResult>";
    let buckets = <Client>::parse_xml(xml.to_owned(), &EndPoint::CnQingdao).unwrap();
    assert_eq!(buckets.len(), 2);
    assert_eq!(buckets[0].name.as_str(), "alpha");
    assert_eq!(buckets[1].name.as_str(), "beta");
    assert_eq!(buckets[0].endpoint, EndPoint::CnQingdao);
}

#[test]
fn parse_xml_rejects_unpaired_markers() {
    let xml = "<Buckets><Bucket><Name>alpha</Bucket></Buckets>";
    let r = <Client>::parse_xml(xml.to_owned(), &EndPoint::CnQingdao);
    assert!(matches!(r, Err(OssError::Input(_))));
}

#[test]
fn client_holds_credential_and_bucket() {
    let mut client: Client = Client::new(
        KeyId::from_static("key"),
        KeySecret::from_static("secret"),
    );
    assert!(client.bucket().is_none());

    let bucket = aliyun_oss_client::client::Bucket::new(
        aliyun_oss_client::types::BucketName::from_static("bucket1"),
        EndPoint::CnQingdao,
    );
    let bucket2 = aliyun_oss_client::client::Bucket::new(
        aliyun_oss_client::types::BucketName::from_static("bucket2"),
        EndPoint::CnQingdao,
    );
    let res = client.set_bucket(bucket.clone());
    assert!(res.is_none());
    assert_eq!(client.bucket(), Some(&bucket));

    let res2 = client.set_bucket(bucket2.clone());
    assert_eq!(res2, Some(bucket));
    assert_eq!(client.bucket(), Some(&bucket2));
}

#[test]
fn authorization_headers_carry_the_signature() {
    let client: Client = Client::new(
        KeyId::from_static("key"),
        KeySecret::from_static("secret"),
    );
    let resource = aliyun_oss_client::types::CanonicalizedResource::default();
    let headers = client
        .authorization(aliyun_oss_client::auth::VERB::Get, resource)
        .unwrap();
    assert_eq!(headers.get("AccessKeyId").unwrap().as_str(), "key");
    assert_eq!(headers.get("VERB").unwrap().as_str(), "GET");
    assert_eq!(headers.get("Content-Type").unwrap().as_str(), "text/xml");
    assert_eq!(headers.get("CanonicalizedResource").unwrap().as_str(), "/");
    assert!(headers.get("Date").is_some());
    assert!(headers.get("Authorization").unwrap().starts_with("OSS key:"));
}
