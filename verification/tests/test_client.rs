use tg_snatch::telegram::client::{api_result, updates_request, TelegramClient};
use tg_snatch::telegram::types::ApiResponse;

#[test]
fn urls_are_https_and_carry_the_token() {
    let c = TelegramClient::new("123456:ABCdef".to_string());
    assert_eq!(c.api_url("getMe"), "https://api.telegram.org/bot123456:ABCdef/getMe");
    assert_eq!(
        c.file_url("photos/file_0.jpg"),
        "https://api.telegram.org/file/bot123456:ABCdef/photos/file_0.jpg"
    );
}

#[test]
fn masked_token_hides_the_middle() {
    let c = TelegramClient::new("123456789:ABCDEFGHIJ".to_string());
    assert_eq!(c.masked_token(), "1234…GHIJ");
    let c = TelegramClient::new("1:abc".to_string());
    assert_eq!(c.masked_token(), "****");
}

#[test]
fn api_result_reads_the_envelope() {
    let ok: ApiResponse<i64> = ApiResponse { ok: true, result: Some(5), description: None };
    assert_eq!(api_result(ok).unwrap(), 5);
    let refused: ApiResponse<i64> =
        ApiResponse { ok: false, result: None, description: Some("Unauthorized".to_string()) };
    assert_eq!(api_result(refused).unwrap_err().description, "Unauthorized");
    let odd: ApiResponse<i64> = ApiResponse { ok: false, result: Some(1), description: None };
    assert_eq!(api_result(odd).unwrap_err().description, "");
    let empty: ApiResponse<i64> = ApiResponse { ok: true, result: None, description: None };
    assert!(api_result(empty).is_err());
}

#[test]
fn updates_request_parameters() {
    let r = updates_request(Some(-42), 30);
    assert_eq!(r.client_timeout_secs, 40);
    assert_eq!(
        r.params,
        vec![
            ("timeout".to_string(), "30".to_string()),
            ("allowed_updates".to_string(), "[\"message\",\"channel_post\"]".to_string()),
            ("offset".to_string(), "-42".to_string()),
        ]
    );
    let r = updates_request(None, 0);
    assert_eq!(r.params.len(), 2);
    assert_eq!(r.params[0].1, "0");
}
